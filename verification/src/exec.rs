//! Carrying out steps: the deterministic ones, and those of a model.

use crate::history::{done_output, lemma_updated_position, one_more_event};
use crate::model::{
    answered_run, asked_run, begin_completion, end_completion, model_error_text, request_payload,
    ModelError, ModelErrorView, ModelProvider, ModelRequest, ModelResponse, ModelResponseView,
};
use crate::number::{decimal, decimal_text};
use crate::plan::{plan_error_text, PlanError, PlanErrorView};
use crate::run::{RunStatus, StepDefinition, StepDefinitionView};
use crate::sandbox::{sandbox_error_text, SandboxError, SandboxErrorView};
use crate::store::{
    completed_run, find_step, finished_run, lemma_step_position, run_position, started_run,
    step_position, store_error_text, RunRecord, RunView, Store, StoreError, StoreErrorView,
    StoredStep, StoredStepView,
};
use crate::text::{opt_view, res_view, same_text, unit_view, views};
use vstd::prelude::*;
use vstd::string::StringExecFns;

verus! {

// Errors

/// Why the work on a run stopped.
#[derive(Debug)]
pub enum ExecutionError {
    Store(StoreError),
    SimulatedCrash { run_id: String, completed: usize },
    Sandbox(SandboxError),
    Model(ModelError),
    GateFailed(String),
    Plan(String),
}

/// The mathematical form of an execution error.
pub enum ExecutionErrorView {
    Store(StoreErrorView),
    SimulatedCrash { run_id: Seq<char>, completed: nat },
    Sandbox(SandboxErrorView),
    Model(ModelErrorView),
    GateFailed(Seq<char>),
    Plan(Seq<char>),
}

impl View for ExecutionError {
    type V = ExecutionErrorView;

    open spec fn view(&self) -> ExecutionErrorView {
        match self {
            ExecutionError::Store(error) => ExecutionErrorView::Store(error@),
            ExecutionError::SimulatedCrash { run_id, completed } => {
                ExecutionErrorView::SimulatedCrash { run_id: run_id@, completed: *completed as nat }
            },
            ExecutionError::Sandbox(error) => ExecutionErrorView::Sandbox(error@),
            ExecutionError::Model(error) => ExecutionErrorView::Model(error@),
            ExecutionError::GateFailed(message) => ExecutionErrorView::GateFailed(message@),
            ExecutionError::Plan(message) => ExecutionErrorView::Plan(message@),
        }
    }
}

/// The text of an execution error.
pub open spec fn execution_error_text(error: ExecutionErrorView) -> Seq<char> {
    match error {
        ExecutionErrorView::Store(error) => store_error_text(error),
        ExecutionErrorView::SimulatedCrash { run_id, completed } => {
            "simulated process crash after "@ + decimal(completed) + " completed step(s) in run `"@
                + run_id + "`"@
        },
        ExecutionErrorView::Sandbox(error) => sandbox_error_text(error),
        ExecutionErrorView::Model(error) => model_error_text(error),
        ExecutionErrorView::GateFailed(message) => message,
        ExecutionErrorView::Plan(message) => message,
    }
}

impl ExecutionError {
    /// The text of the error.
    pub fn message(&self) -> (text: String)
        ensures
            text@ == execution_error_text(self@),
    {
        match self {
            ExecutionError::Store(error) => error.message(),
            ExecutionError::SimulatedCrash { run_id, completed } => {
                let mut text = "simulated process crash after ".to_owned();
                text.append(decimal_text(*completed as u64).as_str());
                text.append(" completed step(s) in run `");
                text.append(run_id.as_str());
                text.append("`");
                text
            },
            ExecutionError::Sandbox(error) => error.message(),
            ExecutionError::Model(error) => error.message(),
            ExecutionError::GateFailed(message) => message.clone(),
            ExecutionError::Plan(message) => message.clone(),
        }
    }

    /// A plan that was refused.
    pub fn from_plan_error(error: &PlanError) -> (refused: ExecutionError)
        ensures
            refused@ == refused_plan(error@),
    {
        ExecutionError::Plan(error.message())
    }
}

/// A plan that was refused.
pub open spec fn refused_plan(error: PlanErrorView) -> ExecutionErrorView {
    ExecutionErrorView::Plan(plan_error_text(error))
}

// Deterministic steps

/// Whether a stored step is the one that a definition speaks of.
pub open spec fn is_step(step: StoredStepView, definition: StepDefinitionView) -> bool {
    step.index == definition.index && step.id == definition.id
}

/// The position of the stored step that a definition speaks of.
pub open spec fn defined_position(
    steps: Seq<StoredStepView>,
    definition: StepDefinitionView,
) -> Option<int>
    decreases steps.len(),
{
    if steps.len() == 0 {
        None
    } else {
        match defined_position(steps.drop_last(), definition) {
            Some(position) => Some(position),
            None => if is_step(steps.last(), definition) {
                Some(steps.len() - 1)
            } else {
                None
            },
        }
    }
}

/// Whether the step that a definition speaks of is still to do: it is not stored
/// as completed.
pub open spec fn is_pending(steps: Seq<StoredStepView>, definition: StepDefinitionView) -> bool {
    match defined_position(steps, definition) {
        Some(position) => !steps[position].completed,
        None => true,
    }
}

/// The definitions whose steps are still to do, in order.
pub open spec fn pending_of(
    steps: Seq<StoredStepView>,
    definitions: Seq<StepDefinitionView>,
) -> Seq<StepDefinitionView>
    decreases definitions.len(),
{
    if definitions.len() == 0 {
        Seq::empty()
    } else {
        let front = pending_of(steps, definitions.drop_last());
        if is_pending(steps, definitions.last()) {
            front.push(definitions.last())
        } else {
            front
        }
    }
}

/// The output of a deterministic step.
pub open spec fn plain_output(id: Seq<char>) -> Seq<char> {
    "completed "@ + id
}

/// What the next step of an execution does to a run, and whether the execution
/// ends with it: the next pending step is completed, and when none is left the
/// run is finished.
pub open spec fn execution_step(
    run: RunView,
    pending: Seq<StepDefinitionView>,
    at: nat,
    crash_after: Option<nat>,
) -> (RunView, Option<Result<(), ExecutionErrorView>>) {
    if at >= pending.len() {
        (finished_run(run), Some(Ok(())))
    } else {
        match completed_run(run, pending[at as int].index, plain_output(pending[at as int].id)) {
            Err(error) => (run, Some(Err(ExecutionErrorView::Store(error)))),
            Ok(next) => if crash_after == Some((at + 1) as nat) {
                (
                    next,
                    Some(
                        Err(
                            ExecutionErrorView::SimulatedCrash {
                                run_id: run.run_id,
                                completed: (at + 1) as nat,
                            },
                        ),
                    ),
                )
            } else {
                (next, None)
            },
        }
    }
}

/// What an execution does to a run from a pending step on.
pub open spec fn executed(
    run: RunView,
    pending: Seq<StepDefinitionView>,
    at: nat,
    crash_after: Option<nat>,
) -> (RunView, Result<(), ExecutionErrorView>)
    decreases pending.len() + 1 - at,
{
    match execution_step(run, pending, at, crash_after) {
        (next, Some(result)) => (next, result),
        (next, None) => if at < pending.len() {
            executed(next, pending, at + 1, crash_after)
        } else {
            (next, Ok(()))
        },
    }
}

/// What an execution of defined steps does to a run, and how it ends.
pub open spec fn execution(
    run: RunView,
    definitions: Seq<StepDefinitionView>,
    crash_after: Option<nat>,
) -> (RunView, Result<(), ExecutionErrorView>) {
    executed(started_run(run), pending_of(run.steps, definitions), 0, crash_after)
}

/// Whether every definition speaks of a stored step, and those that are done
/// have kept their outputs.
pub open spec fn definitions_stored(
    steps: Seq<StoredStepView>,
    definitions: Seq<StepDefinitionView>,
) -> bool {
    forall|i: int|
        0 <= i < definitions.len() ==> match defined_position(
            steps,
            #[trigger] definitions[i],
        ) {
            Some(position) => steps[position].completed ==> steps[position].output is Some,
            None => false,
        }
}

/// Whether an execution comes to one of its definitions: it does not come to
/// what stands after the step with which it crashes.
pub open spec fn comes_to(
    steps: Seq<StoredStepView>,
    definitions: Seq<StepDefinitionView>,
    at: int,
    crash_after: Option<nat>,
) -> bool {
    match crash_after {
        Some(count) => count == 0 || pending_of(steps, definitions.take(at)).len() < count,
        None => true,
    }
}

/// Whether every definition that an execution comes to speaks of a stored step,
/// and those that are done have kept their outputs.
pub open spec fn reached_definitions_stored(
    steps: Seq<StoredStepView>,
    definitions: Seq<StepDefinitionView>,
    crash_after: Option<nat>,
) -> bool {
    forall|i: int|
        0 <= i < definitions.len() && comes_to(steps, definitions, i, crash_after)
            ==> match defined_position(steps, #[trigger] definitions[i]) {
            Some(position) => steps[position].completed ==> steps[position].output is Some,
            None => false,
        }
}

/// Whether the indices of definitions leave room for the next one.
pub open spec fn indices_fit(definitions: Seq<StepDefinitionView>) -> bool {
    forall|i: int|
        0 <= i < definitions.len() ==> (#[trigger] definitions[i]).index < usize::MAX
}

/// The mathematical form of a count after which a crash is simulated.
pub open spec fn opt_count(count: Option<usize>) -> Option<nat> {
    match count {
        Some(count) => Some(count as nat),
        None => None,
    }
}

/// Where the step of a definition is found.
pub proof fn lemma_defined_position(steps: Seq<StoredStepView>, definition: StepDefinitionView)
    ensures
        match defined_position(steps, definition) {
            Some(position) => 0 <= position < steps.len() && is_step(steps[position], definition),
            None => forall|i: int|
                0 <= i < steps.len() ==> !is_step(#[trigger] steps[i], definition),
        },
    decreases steps.len(),
{
    if steps.len() > 0 {
        lemma_defined_position(steps.drop_last(), definition);
        if defined_position(steps, definition) is None {
            assert forall|i: int| 0 <= i < steps.len() implies !is_step(
                #[trigger] steps[i],
                definition,
            ) by {
                if i < steps.len() - 1 {
                    assert(steps.drop_last()[i] == steps[i]);
                }
            }
        }
    }
}

proof fn lemma_defined_position_stays(
    steps: Seq<StoredStepView>,
    upto: int,
    definition: StepDefinitionView,
)
    requires
        0 <= upto <= steps.len(),
        defined_position(steps.take(upto), definition) is Some,
    ensures
        defined_position(steps, definition) == defined_position(steps.take(upto), definition),
    decreases steps.len() - upto,
{
    if upto < steps.len() {
        assert(steps.take(upto + 1).drop_last() =~= steps.take(upto));
        lemma_defined_position_stays(steps, upto + 1, definition);
    } else {
        assert(steps.take(upto) =~= steps);
    }
}

fn step_is_pending(steps: &Vec<StoredStep>, definition: &StepDefinition) -> (pending: bool)
    ensures
        pending == is_pending(views(steps@), definition@),
{
    let ghost all = views(steps@);
    let mut i: usize = 0;
    proof {
        assert(all.take(0) =~= Seq::<StoredStepView>::empty());
    }
    while i < steps.len()
        invariant
            all == views(steps@),
            i <= steps@.len(),
            defined_position(all.take(i as int), definition@) is None,
        decreases steps@.len() - i,
    {
        proof {
            assert(all.take(i + 1).drop_last() =~= all.take(i as int));
            assert(all.take(i + 1).last() == steps@[i as int]@);
        }
        if steps[i].index == definition.index && same_text(
            steps[i].id.as_str(),
            definition.id.as_str(),
        ) {
            proof {
                lemma_defined_position_stays(all, i + 1, definition@);
            }
            return !steps[i].completed;
        }
        i = i + 1;
    }
    proof {
        assert(all.take(all.len() as int) =~= all);
    }
    true
}

fn copy_definition(definition: &StepDefinition) -> (copy: StepDefinition)
    ensures
        copy@ == definition@,
{
    StepDefinition { index: definition.index, id: definition.id.clone() }
}

/// The definitions whose steps are still to do, in order.
pub fn pending_definitions(record: &RunRecord, definitions: &Vec<StepDefinition>) -> (pending: Vec<
    StepDefinition,
>)
    ensures
        views(pending@) == pending_of(record@.steps, views(definitions@)),
{
    let ghost all = views(definitions@);
    let mut pending: Vec<StepDefinition> = Vec::new();
    let mut i: usize = 0;
    proof {
        assert(all.take(0) =~= Seq::<StepDefinitionView>::empty());
        assert(views(pending@) =~= Seq::<StepDefinitionView>::empty());
    }
    while i < definitions.len()
        invariant
            all == views(definitions@),
            i <= definitions@.len(),
            views(pending@) == pending_of(record@.steps, all.take(i as int)),
        decreases definitions@.len() - i,
    {
        proof {
            assert(all.take(i + 1).drop_last() =~= all.take(i as int));
            assert(all.take(i + 1).last() == definitions@[i as int]@);
        }
        let ghost before = views(pending@);
        if step_is_pending(&record.steps, &definitions[i]) {
            let definition = copy_definition(&definitions[i]);
            pending.push(definition);
            proof {
                assert(views(pending@) =~= before.push(definition@));
            }
        }
        i = i + 1;
    }
    proof {
        assert(all.take(all.len() as int) =~= all);
    }
    pending
}

fn say_completed(id: &str) -> (text: String)
    ensures
        text@ == plain_output(id@),
{
    let mut text = "completed ".to_owned();
    text.append(id);
    text
}

/// Does the next step of an execution. The run is to be kept after each call,
/// before the next is made.
pub fn advance_execution(
    record: &mut RunRecord,
    pending: &Vec<StepDefinition>,
    at: usize,
    crash_after: Option<usize>,
) -> (end: Option<Result<(), ExecutionError>>)
    requires
        indices_fit(views(pending@)),
    ensures
        match execution_step(old(record)@, views(pending@), at as nat, opt_count(crash_after)) {
            (next, Some(result)) => {
                &&& final(record)@ == next
                &&& end is Some
                &&& unit_view(end->0) == result
            },
            (next, None) => final(record)@ == next && end is None,
        },
{
    if at >= pending.len() {
        record.finish_run();
        return Some(Ok(()));
    }
    proof {
        assert(views(pending@)[at as int] == pending@[at as int]@);
    }
    let output = say_completed(pending[at].id.as_str());
    match record.complete_step(pending[at].index, output.as_str()) {
        Err(error) => Some(Err(ExecutionError::Store(error))),
        Ok(()) => {
            let crash = match crash_after {
                Some(count) => count == at + 1,
                None => false,
            };
            if crash {
                Some(
                    Err(
                        ExecutionError::SimulatedCrash {
                            run_id: record.run_id.clone(),
                            completed: at + 1,
                        },
                    ),
                )
            } else {
                None
            }
        },
    }
}

proof fn lemma_pending_fit(steps: Seq<StoredStepView>, definitions: Seq<StepDefinitionView>)
    requires
        indices_fit(definitions),
    ensures
        indices_fit(pending_of(steps, definitions)),
    decreases definitions.len(),
{
    if definitions.len() > 0 {
        let front = definitions.drop_last();
        assert forall|i: int| 0 <= i < front.len() implies (#[trigger] front[i]).index
            < usize::MAX by {
            assert(definitions[i] == front[i]);
        }
        lemma_pending_fit(steps, front);
        assert(definitions[definitions.len() - 1].index < usize::MAX);
    }
}

/// Executes defined steps of a run that is kept as a record.
pub fn execute_record(
    record: &mut RunRecord,
    definitions: &Vec<StepDefinition>,
    crash_after: Option<usize>,
) -> (result: Result<(), ExecutionError>)
    requires
        reached_definitions_stored(
            old(record)@.steps,
            views(definitions@),
            opt_count(crash_after),
        ),
        indices_fit(views(definitions@)),
    ensures
        (final(record)@, unit_view(result)) == execution(
            old(record)@,
            views(definitions@),
            opt_count(crash_after),
        ),
{
    let pending = pending_definitions(record, definitions);
    let ghost expected = execution(record@, views(definitions@), opt_count(crash_after));
    proof {
        lemma_pending_fit(record@.steps, views(definitions@));
    }
    record.mark_running();
    let mut at: usize = 0;
    while at < pending.len()
        invariant
            at <= pending@.len(),
            indices_fit(views(pending@)),
            executed(record@, views(pending@), at as nat, opt_count(crash_after)) == expected,
            expected == execution(old(record)@, views(definitions@), opt_count(crash_after)),
        decreases pending@.len() - at,
    {
        match advance_execution(record, &pending, at, crash_after) {
            Some(result) => return result,
            None => {},
        }
        at = at + 1;
    }
    match advance_execution(record, &pending, at, crash_after) {
        Some(result) => result,
        None => Ok(()),
    }
}

/// Executes defined steps of a stored run: it is marked as running, its pending
/// steps are completed in order, and it is finished. A crash may be simulated
/// after a number of completed steps.
pub fn execute(
    store: &mut Store,
    run_id: &str,
    definitions: &Vec<StepDefinition>,
    crash_after: Option<usize>,
) -> (result: Result<(), ExecutionError>)
    requires
        run_position(old(store)@, run_id@) matches Some(position) ==> reached_definitions_stored(
            old(store)@[position].steps,
            views(definitions@),
            opt_count(crash_after),
        ),
        indices_fit(views(definitions@)),
    ensures
        match run_position(old(store)@, run_id@) {
            None => {
                &&& unit_view(result) == Err::<(), ExecutionErrorView>(
                    ExecutionErrorView::Store(StoreErrorView::RunNotFound(run_id@)),
                )
                &&& final(store)@ == old(store)@
            },
            Some(position) => {
                let (run, end) = execution(
                    old(store)@[position],
                    views(definitions@),
                    opt_count(crash_after),
                );
                &&& unit_view(result) == end
                &&& final(store)@ == old(store)@.update(position, run)
            },
        },
{
    match store.record_mut(run_id) {
        Err(error) => Err(ExecutionError::Store(error)),
        Ok(record) => execute_record(record, definitions, crash_after),
    }
}

// Steps of a model

/// What beginning a model step does to a run: a step that was done before gives
/// its output, and for any other the request is recorded.
pub open spec fn llm_begun(run: RunView, index: nat, payload: Result<Seq<char>, Seq<char>>) -> (
    RunView,
    Result<Option<Seq<char>>, ExecutionErrorView>,
) {
    let started = started_run(run);
    match (done_output(started, index), payload) {
        (Some(output), _) => (started, Ok(Some(output))),
        (None, Err(message)) => (
            started,
            Err(ExecutionErrorView::Model(ModelErrorView::Decode(message))),
        ),
        (None, Ok(payload)) => (asked_run(started, index, payload), Ok(None)),
    }
}

/// What the answer of a model does to a run: it is recorded, and completes the
/// step.
pub open spec fn llm_ended(
    run: RunView,
    index: nat,
    outcome: Result<ModelResponseView, ModelErrorView>,
) -> (RunView, Result<Seq<char>, ExecutionErrorView>) {
    let answered = answered_run(run, index, outcome);
    match outcome {
        Err(error) => (answered, Err(ExecutionErrorView::Model(error))),
        Ok(response) => match completed_run(answered, index, response.text) {
            Err(error) => (answered, Err(ExecutionErrorView::Store(error))),
            Ok(next) => (next, Ok(response.text)),
        },
    }
}

impl RunRecord {
    /// The output of the step with an index, if it is completed.
    pub fn step_output(&self, step_index: usize) -> (output: Option<String>)
        ensures
            opt_view(output) == done_output(self@, step_index as nat),
    {
        match find_step(&self.steps, step_index) {
            None => None,
            Some(position) => {
                proof {
                    crate::store::lemma_step_position(self@.steps, step_index as nat);
                    assert(self@.steps[position as int] == self.steps@[position as int]@);
                }
                if self.steps[position].completed {
                    crate::store::copy_text(&self.steps[position].output)
                } else {
                    None
                }
            },
        }
    }
}

/// Begins a model step. The run is to be kept before the model is asked.
pub fn begin_llm_step(record: &mut RunRecord, step_index: usize, request: &ModelRequest) -> (result:
    Result<Option<String>, ExecutionError>)
    ensures
        match llm_begun(old(record)@, step_index as nat, request_payload(request@)) {
            (run, Ok(output)) => {
                &&& final(record)@ == run
                &&& result is Ok
                &&& opt_view(result->Ok_0) == output
            },
            (run, Err(error)) => {
                &&& final(record)@ == run
                &&& result is Err
                &&& result->Err_0@ == error
            },
        },
{
    record.mark_running();
    match record.step_output(step_index) {
        Some(output) => Ok(Some(output)),
        None => match begin_completion(record, step_index, request) {
            Err(error) => Err(ExecutionError::Model(error)),
            Ok(()) => Ok(None),
        },
    }
}

/// Ends a model step with what the model answered.
pub fn end_llm_step(
    record: &mut RunRecord,
    step_index: usize,
    outcome: Result<ModelResponse, ModelError>,
) -> (result: Result<String, ExecutionError>)
    requires
        step_index < usize::MAX,
    ensures
        (final(record)@, res_view(result)) == llm_ended(
            old(record)@,
            step_index as nat,
            res_view(outcome),
        ),
{
    end_completion(record, step_index, &outcome);
    match outcome {
        Err(error) => Err(ExecutionError::Model(error)),
        Ok(response) => match record.complete_step(step_index, response.text.as_str()) {
            Err(error) => Err(ExecutionError::Store(error)),
            Ok(()) => Ok(response.text),
        },
    }
}

/// Carries out a model step: asks the provider unless the step was done before.
/// Whatever the provider gives, the request and the answer are recorded, and an
/// answer completes the step.
pub fn execute_llm_step_in_run<P: ModelProvider>(
    record: &mut RunRecord,
    definition: &StepDefinition,
    provider: &P,
    request: &ModelRequest,
) -> (result: Result<String, ExecutionError>)
    requires
        definition.index < usize::MAX,
    ensures
        match llm_begun(old(record)@, definition@.index, request_payload(request@)) {
            (run, Ok(Some(output))) => {
                &&& final(record)@ == run
                &&& res_view(result) == Ok::<Seq<char>, ExecutionErrorView>(output)
            },
            (run, Err(error)) => {
                &&& final(record)@ == run
                &&& res_view(result) == Err::<Seq<char>, ExecutionErrorView>(error)
            },
            (run, Ok(None)) => exists|outcome: Result<ModelResponse, ModelError>| #[trigger]
                call_ensures(P::complete, (provider, request), outcome) && (
                    final(record)@,
                    res_view(result),
                ) == llm_ended(run, definition@.index, res_view(outcome)),
        },
{
    match begin_llm_step(record, definition.index, request) {
        Err(error) => Err(error),
        Ok(Some(output)) => Ok(output),
        Ok(None) => {
            let outcome = provider.complete(request);
            end_llm_step(record, definition.index, outcome)
        },
    }
}

/// What a model step of a run of its own asks for: the answer of the model, or
/// nothing any more.
#[derive(Debug)]
pub enum LlmStep {
    Complete,
    Done(Result<String, ExecutionError>),
}

/// The mathematical form of what a model step asks for.
pub enum LlmStepView {
    Complete,
    Done(Result<Seq<char>, ExecutionErrorView>),
}

impl View for LlmStep {
    type V = LlmStepView;

    open spec fn view(&self) -> LlmStepView {
        match self {
            LlmStep::Complete => LlmStepView::Complete,
            LlmStep::Done(result) => LlmStepView::Done(res_view(*result)),
        }
    }
}

/// A run whose model step is over. It is finished if the step has an output.
pub open spec fn llm_over(run: RunView, result: Result<Seq<char>, ExecutionErrorView>) -> (
    RunView,
    LlmStepView,
) {
    (
        if result is Ok {
            finished_run(run)
        } else {
            run
        },
        LlmStepView::Done(result),
    )
}

/// What starting a model step does to a run of its own.
pub open spec fn llm_step_started(
    run: RunView,
    index: nat,
    payload: Result<Seq<char>, Seq<char>>,
) -> (RunView, LlmStepView) {
    match llm_begun(run, index, payload) {
        (begun, Ok(Some(output))) => llm_over(begun, Ok(output)),
        (begun, Err(error)) => llm_over(begun, Err(error)),
        (begun, Ok(None)) => (begun, LlmStepView::Complete),
    }
}

/// What the answer of the model does to a run of its own.
pub open spec fn llm_step_answered(
    run: RunView,
    index: nat,
    outcome: Result<ModelResponseView, ModelErrorView>,
) -> (RunView, LlmStepView) {
    let (ended, result) = llm_ended(run, index, outcome);
    llm_over(ended, result)
}

/// Starts a model step in a run of its own. The run is to be kept before the
/// model is asked.
pub fn start_llm_step(record: &mut RunRecord, step_index: usize, request: &ModelRequest) -> (step:
    LlmStep)
    ensures
        (final(record)@, step@) == llm_step_started(
            old(record)@,
            step_index as nat,
            request_payload(request@),
        ),
{
    match begin_llm_step(record, step_index, request) {
        Err(error) => LlmStep::Done(Err(error)),
        Ok(None) => LlmStep::Complete,
        Ok(Some(output)) => {
            record.finish_run();
            LlmStep::Done(Ok(output))
        },
    }
}

/// Ends a model step in a run of its own with what the model answered.
pub fn answer_llm_step(
    record: &mut RunRecord,
    step_index: usize,
    outcome: Result<ModelResponse, ModelError>,
) -> (result: Result<String, ExecutionError>)
    requires
        step_index < usize::MAX,
    ensures
        (final(record)@, LlmStepView::Done(res_view(result))) == llm_step_answered(
            old(record)@,
            step_index as nat,
            res_view(outcome),
        ),
{
    match end_llm_step(record, step_index, outcome) {
        Err(error) => Err(error),
        Ok(output) => {
            record.finish_run();
            Ok(output)
        },
    }
}

/// Carries out a model step and finishes the run.
pub fn execute_llm_step<P: ModelProvider>(
    record: &mut RunRecord,
    definition: &StepDefinition,
    provider: &P,
    request: &ModelRequest,
) -> (result: Result<String, ExecutionError>)
    requires
        definition.index < usize::MAX,
    ensures
        match llm_step_started(old(record)@, definition@.index, request_payload(request@)) {
            (run, LlmStepView::Done(end)) => final(record)@ == run && res_view(result) == end,
            (run, LlmStepView::Complete) => exists|outcome: Result<ModelResponse, ModelError>|
                #[trigger] call_ensures(P::complete, (provider, request), outcome) && (
                    final(record)@,
                    LlmStepView::Done(res_view(result)),
                ) == llm_step_answered(run, definition@.index, res_view(outcome)),
        },
{
    match start_llm_step(record, definition.index, request) {
        LlmStep::Done(result) => result,
        LlmStep::Complete => {
            let outcome = provider.complete(request);
            answer_llm_step(record, definition.index, outcome)
        },
    }
}

// Laws of model steps

/// The output of a step is the one that its first step with the index was
/// completed with.
pub proof fn outputs_are_those_of_completed_steps(run: RunView, index: nat, i: int)
    requires
        0 <= i < run.steps.len(),
        run.steps[i].index == index,
        forall|j: int| 0 <= j < i ==> (#[trigger] run.steps[j]).index != index,
    ensures
        done_output(run, index) == if run.steps[i].completed {
            run.steps[i].output
        } else {
            None
        },
{
    lemma_step_position(run.steps, index);
}

/// A model step that was done before gives its output again: the model is not
/// asked, and the run is only started and finished.
pub proof fn done_model_steps_are_not_asked_again(
    run: RunView,
    index: nat,
    payload: Result<Seq<char>, Seq<char>>,
    output: Seq<char>,
)
    requires
        done_output(run, index) == Some(output),
    ensures
        llm_step_started(run, index, payload).1 == LlmStepView::Done(Ok(output)),
        llm_step_started(run, index, payload).0 == finished_run(started_run(run)),
{
}

/// A model step that is to be done asks the model, and what it asks is recorded.
/// A request that cannot be written is an error, and the run goes on.
pub proof fn pending_model_steps_are_asked(
    run: RunView,
    index: nat,
    payload: Seq<char>,
    message: Seq<char>,
)
    requires
        done_output(run, index) is None,
    ensures
        ({
            let (asked, step) = llm_step_started(run, index, Ok(payload));
            &&& step is Complete
            &&& one_more_event(
                started_run(run).events,
                asked.events,
                "llm.request"@,
                Some(index),
                "request="@ + payload,
            )
            &&& asked == (RunView { events: asked.events, ..started_run(run) })
        }),
        llm_step_started(run, index, Err(message)) == (
            started_run(run),
            LlmStepView::Done(Err(ExecutionErrorView::Model(ModelErrorView::Decode(message)))),
        ),
{
}

/// What an answer does to a model step that is to be done: a text completes the
/// step with it and finishes the run, and an error leaves the step to do.
pub proof fn answers_complete_their_step(
    run: RunView,
    index: nat,
    response: ModelResponseView,
    error: ModelErrorView,
)
    requires
        step_position(run.steps, index) is Some,
        done_output(run, index) is None,
        !run.steps[step_position(run.steps, index)->0].completed,
    ensures
        ({
            let (after, step) = llm_step_answered(run, index, Ok(response));
            &&& step == LlmStepView::Done(Ok(response.text))
            &&& done_output(after, index) == Some(response.text)
            &&& after.status == RunStatus::Succeeded
            &&& after.run_id == run.run_id
            &&& answered_run(run, index, Ok(response)).events.is_prefix_of(after.events)
        }),
        ({
            let (after, step) = llm_step_answered(run, index, Err(error));
            &&& step == LlmStepView::Done(Err(ExecutionErrorView::Model(error)))
            &&& after == answered_run(run, index, Err(error))
            &&& after.steps == run.steps
            &&& after.status == run.status
        }),
{
    lemma_step_position(run.steps, index);
    let place = step_position(run.steps, index)->0;
    let done = StoredStepView {
        completed: true,
        output: Some(response.text),
        ..run.steps[place]
    };
    lemma_updated_position(run.steps, place, done, index);
    let after = llm_step_answered(run, index, Ok(response)).0;
    let told = answered_run(run, index, Ok(response)).events;
    assert(after.events.subrange(0, told.len() as int) =~= told);
}

/// Which definitions are to be done: those of a list and then those of another
/// are those of both together, and one alone is to be done unless its step, the
/// one with its index and identifier, is completed.
pub proof fn pending_definitions_keep_their_order(
    steps: Seq<StoredStepView>,
    front: Seq<StepDefinitionView>,
    back: Seq<StepDefinitionView>,
    definition: StepDefinitionView,
    i: int,
)
    ensures
        pending_of(steps, front + back) == pending_of(steps, front) + pending_of(steps, back),
        0 <= i < steps.len() && steps[i].index == definition.index && steps[i].id == definition.id
            && (forall|j: int|
            0 <= j < i ==> (#[trigger] steps[j]).index != definition.index || steps[j].id
                != definition.id) ==> pending_of(steps, seq![definition]) == if steps[i].completed {
            Seq::empty()
        } else {
            seq![definition]
        },
        (forall|j: int|
            0 <= j < steps.len() ==> (#[trigger] steps[j]).index != definition.index || steps[j].id
                != definition.id) ==> pending_of(steps, seq![definition]) == seq![definition],
    decreases back.len(),
{
    if back.len() == 0 {
        assert(front + back =~= front);
        assert(pending_of(steps, front) + pending_of(steps, back) =~= pending_of(steps, front));
    } else {
        assert((front + back).drop_last() =~= front + back.drop_last());
        pending_definitions_keep_their_order(steps, front, back.drop_last(), definition, i);
        assert((front + back).last() == back.last());
        assert(pending_of(steps, front + back) =~= pending_of(steps, front) + pending_of(
            steps,
            back,
        ));
    }
    lemma_defined_position(steps, definition);
    let one = seq![definition];
    assert(one.drop_last() =~= Seq::<StepDefinitionView>::empty());
    assert(pending_of(steps, one.drop_last()) =~= Seq::<StepDefinitionView>::empty());
    assert(Seq::<StepDefinitionView>::empty().push(definition) =~= one);
    if 0 <= i < steps.len() && steps[i].index == definition.index && steps[i].id == definition.id
        && (forall|j: int|
        0 <= j < i ==> (#[trigger] steps[j]).index != definition.index || steps[j].id
            != definition.id) {
        lemma_first_defined(steps, definition, i);
    }
}

proof fn lemma_first_defined(
    steps: Seq<StoredStepView>,
    definition: StepDefinitionView,
    i: int,
)
    requires
        0 <= i < steps.len(),
        is_step(steps[i], definition),
        forall|j: int| 0 <= j < i ==> !is_step(#[trigger] steps[j], definition),
    ensures
        defined_position(steps, definition) == Some(i),
    decreases steps.len(),
{
    let front = steps.drop_last();
    lemma_defined_position(front, definition);
    if i < front.len() {
        assert(is_step(front[i], definition));
        assert forall|j: int| 0 <= j < i implies !is_step(#[trigger] front[j], definition) by {
            assert(front[j] == steps[j]);
        }
        lemma_first_defined(front, definition, i);
    } else if let Some(place) = defined_position(front, definition) {
        assert(front[place] == steps[place]);
    }
}

/// Every error is told with what it holds, behind words that tell its kind. The
/// errors of the parts are told as the parts tell them.
pub proof fn errors_tell_what_they_hold(
    message: Seq<char>,
    other: Seq<char>,
    number: nat,
    store: StoreErrorView,
    sandbox: SandboxErrorView,
    model: ModelErrorView,
)
    ensures
        store_error_text(StoreErrorView::Io(message)) == "I/O error: "@ + message,
        store_error_text(StoreErrorView::Sql(message)) == "database error: "@ + message,
        store_error_text(StoreErrorView::InvalidStatus(message)) == message,
        store_error_text(StoreErrorView::RunNotFound(message)) == "run `"@ + message
            + "` was not found"@,
        sandbox_error_text(SandboxErrorView::InvalidRoot(message)) == "workspace root is invalid: "@
            + message,
        sandbox_error_text((SandboxErrorView::Denied { rule: message, attempted: other }))
            == "sandbox denied `"@ + other + "`: "@ + message,
        sandbox_error_text(SandboxErrorView::Io(message)) == "sandbox I/O error: "@ + message,
        model_error_text(ModelErrorView::Configuration(message)) == "model configuration error: "@
            + message,
        model_error_text(ModelErrorView::Http(message)) == "model HTTP error: "@ + message,
        model_error_text((ModelErrorView::Provider { status: number, body: message }))
            == "model provider returned HTTP "@ + decimal(number) + ": "@ + message,
        model_error_text(ModelErrorView::Decode(message)) == "model response decode error: "@
            + message,
        model_error_text(ModelErrorView::Audit(store)) == "model audit error: "@ + store_error_text(
            store,
        ),
        plan_error_text(PlanErrorView::Decode(message)) == "model plan JSON error: "@ + message,
        plan_error_text(PlanErrorView::Invalid(message)) == "invalid model plan: "@ + message,
        execution_error_text(ExecutionErrorView::Store(store)) == store_error_text(store),
        execution_error_text(ExecutionErrorView::Sandbox(sandbox)) == sandbox_error_text(sandbox),
        execution_error_text(ExecutionErrorView::Model(model)) == model_error_text(model),
        execution_error_text(ExecutionErrorView::GateFailed(message)) == message,
        execution_error_text(ExecutionErrorView::Plan(message)) == message,
        execution_error_text(
            (ExecutionErrorView::SimulatedCrash { run_id: message, completed: number }),
        ) == "simulated process crash after "@ + decimal(number) + " completed step(s) in run `"@
            + message + "`"@,
{
}

} // verus!
