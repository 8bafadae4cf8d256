//! What every operation keeps of a run.

use crate::number::decimal;
use crate::run::{step_ids_are_distinct, step_sequence, RunStatus, StepDefinitionView};
use crate::store::{
    add_steps, applied, completed_run, configured_run, created_run, expanded_run, finished_run, has_id,
    has_index, insert_step, lemma_run_position, lemma_step_position, missing_step, on_run,
    pending_step, result_for, run_position, run_summary, started_run, step_position,
    with_completion, with_event, with_result, with_run, EventView, RunView, StoreErrorView,
    StoredStepView, ToolStepSpecView,
};
use vstd::prelude::*;

verus! {

/// Steps in the strict order of their indices, with identifiers of their own.
pub open spec fn steps_in_order(steps: Seq<StoredStepView>) -> bool {
    &&& forall|i: int, j: int|
        0 <= i < j < steps.len() ==> (#[trigger] steps[i]).index < (#[trigger] steps[j]).index
    &&& forall|i: int, j: int|
        0 <= i < j < steps.len() ==> (#[trigger] steps[i]).id != (#[trigger] steps[j]).id
}

/// Events that are numbered from zero without gaps.
pub open spec fn events_numbered(events: Seq<EventView>) -> bool {
    forall|i: int| 0 <= i < events.len() ==> (#[trigger] events[i]).sequence == i
}

/// What holds of a run at all times: its steps stand in order, every completed
/// step has an output and lies before the current step, and its events are
/// numbered.
pub open spec fn well_formed(run: RunView) -> bool {
    &&& steps_in_order(run.steps)
    &&& forall|i: int|
        0 <= i < run.steps.len() && (#[trigger] run.steps[i]).completed ==> run.steps[i].output is Some
            && run.steps[i].index < run.current_step
    &&& events_numbered(run.events)
}

/// The output of the step with an index, if it is completed.
pub open spec fn done_output(run: RunView, index: nat) -> Option<Seq<char>> {
    match step_position(run.steps, index) {
        Some(position) => if run.steps[position].completed {
            run.steps[position].output
        } else {
            None
        },
        None => None,
    }
}

/// That one run is a later state of another: the trail of events only grew, the
/// recorded effects only grew, completed steps kept their outputs, and the
/// current step did not go back.
pub open spec fn continues(before: RunView, after: RunView) -> bool {
    &&& after.run_id == before.run_id
    &&& before.events.is_prefix_of(after.events)
    &&& before.results.is_prefix_of(after.results)
    &&& before.current_step <= after.current_step
    &&& forall|index: nat|
        done_output(before, index) is Some ==> #[trigger] done_output(after, index) == done_output(
            before,
            index,
        )
}

proof fn lemma_insert_step(steps: Seq<StoredStepView>, step: StoredStepView)
    requires
        steps_in_order(steps),
        !has_index(steps, step.index),
        !has_id(steps, step.id),
    ensures
        steps_in_order(insert_step(steps, step)),
        insert_step(steps, step).len() == steps.len() + 1,
        insert_step(steps, step).contains(step),
        forall|i: int|
            0 <= i < steps.len() ==> insert_step(steps, step).contains(#[trigger] steps[i]),
        forall|j: int|
            0 <= j < insert_step(steps, step).len() ==> steps.contains(
                #[trigger] insert_step(steps, step)[j],
            ) || insert_step(steps, step)[j] == step,
    decreases steps.len(),
{
    if steps.len() == 0 || steps.last().index < step.index {
        let after = steps.push(step);
        assert(after[steps.len() as int] == step);
        assert forall|i: int| 0 <= i < steps.len() implies after.contains(#[trigger] steps[i]) by {
            assert(after[i] == steps[i]);
        }
        assert forall|j: int| 0 <= j < after.len() implies steps.contains(#[trigger] after[j])
            || after[j] == step by {
            if j < steps.len() {
                assert(steps[j] == after[j]);
            }
        }
        assert forall|i: int, j: int| 0 <= i < j < after.len() implies (#[trigger] after[i]).index
            < (#[trigger] after[j]).index && after[i].id != after[j].id by {
            if j == steps.len() {
                assert(steps[i].index <= steps.last().index);
                assert(steps[i].id != step.id);
            }
        }
    } else {
        let front = steps.drop_last();
        assert forall|i: int| 0 <= i < front.len() implies front[i] == #[trigger] steps[i] by {}
        assert(!has_index(front, step.index)) by {
            if has_index(front, step.index) {
                let k = choose|k: int| 0 <= k < front.len() && (#[trigger] front[k]).index == step.index;
                assert(steps[k].index == step.index);
            }
        }
        assert(!has_id(front, step.id)) by {
            if has_id(front, step.id) {
                let k = choose|k: int| 0 <= k < front.len() && (#[trigger] front[k]).id == step.id;
                assert(steps[k].id == step.id);
            }
        }
        lemma_insert_step(front, step);
        let inner = insert_step(front, step);
        let after = inner.push(steps.last());
        assert(after.contains(step)) by {
            let k = choose|k: int| 0 <= k < inner.len() && inner[k] == step;
            assert(after[k] == step);
        }
        assert(steps.last().index != step.index) by {
            assert(steps[steps.len() - 1].index != step.index);
        }
        assert(steps.last().id != step.id) by {
            assert(steps[steps.len() - 1].id != step.id);
        }
        assert forall|j: int| 0 <= j < inner.len() implies (#[trigger] inner[j]).index
            < steps.last().index && inner[j].id != steps.last().id by {
            if inner[j] != step {
                assert(front.contains(inner[j]));
                let k = choose|k: int| 0 <= k < front.len() && front[k] == inner[j];
                assert(steps[k] == inner[j]);
            }
        }
        assert forall|i: int| 0 <= i < steps.len() implies after.contains(#[trigger] steps[i]) by {
            if i < front.len() {
                assert(inner.contains(front[i]));
                let k = choose|k: int| 0 <= k < inner.len() && inner[k] == front[i];
                assert(after[k] == steps[i]);
            } else {
                assert(after[inner.len() as int] == steps[i]);
            }
        }
        assert forall|j: int| 0 <= j < after.len() implies steps.contains(#[trigger] after[j])
            || after[j] == step by {
            if j < inner.len() {
                assert(after[j] == inner[j]);
                if inner[j] != step {
                    let k = choose|k: int| 0 <= k < front.len() && front[k] == inner[j];
                    assert(steps[k] == after[j]);
                }
            } else {
                assert(steps[steps.len() - 1] == after[j]);
            }
        }
    }
}

proof fn lemma_position_is_unique(steps: Seq<StoredStepView>, position: int)
    requires
        steps_in_order(steps),
        0 <= position < steps.len(),
    ensures
        step_position(steps, steps[position].index) == Some(position),
{
    lemma_step_position(steps, steps[position].index);
}

proof fn lemma_add_steps(steps: Seq<StoredStepView>, definitions: Seq<StepDefinitionView>)
    requires
        steps_in_order(steps),
        add_steps(steps, definitions) is Ok,
    ensures
        steps_in_order(add_steps(steps, definitions)->Ok_0),
        add_steps(steps, definitions)->Ok_0.len() == steps.len() + definitions.len(),
        forall|i: int|
            0 <= i < steps.len() ==> add_steps(steps, definitions)->Ok_0.contains(
                #[trigger] steps[i],
            ),
        forall|j: int|
            0 <= j < add_steps(steps, definitions)->Ok_0.len() ==> steps.contains(
                #[trigger] add_steps(steps, definitions)->Ok_0[j],
            ) || !add_steps(steps, definitions)->Ok_0[j].completed,
    decreases definitions.len(),
{
    if definitions.len() > 0 {
        let front = definitions.drop_last();
        lemma_add_steps(steps, front);
        let before = add_steps(steps, front)->Ok_0;
        let step = pending_step(definitions.last());
        lemma_insert_step(before, step);
        let after = insert_step(before, step);
        assert(add_steps(steps, definitions)->Ok_0 == after);
        assert forall|i: int| 0 <= i < steps.len() implies after.contains(#[trigger] steps[i]) by {
            assert(before.contains(steps[i]));
            let k = choose|k: int| 0 <= k < before.len() && before[k] == steps[i];
            assert(after.contains(before[k]));
        }
        assert forall|j: int| 0 <= j < after.len() implies steps.contains(#[trigger] after[j])
            || !after[j].completed by {
            if after[j] != step {
                assert(before.contains(after[j]));
                let k = choose|k: int| 0 <= k < before.len() && before[k] == after[j];
                assert(steps.contains(before[k]) || !before[k].completed);
            }
        }
    } else {
        assert forall|i: int| 0 <= i < steps.len() implies steps.contains(#[trigger] steps[i]) by {}
    }
}

/// A new run is well formed.
pub proof fn created_run_is_well_formed(run_id: Seq<char>, definitions: Seq<StepDefinitionView>)
    requires
        created_run(run_id, definitions) is Ok,
    ensures
        well_formed(created_run(run_id, definitions)->Ok_0),
        created_run(run_id, definitions)->Ok_0.steps.len() == definitions.len(),
{
    lemma_add_steps(Seq::empty(), definitions);
    let steps = add_steps(Seq::empty(), definitions)->Ok_0;
    assert forall|i: int| 0 <= i < steps.len() implies !(#[trigger] steps[i]).completed by {
        assert(!Seq::<StoredStepView>::empty().contains(steps[i]));
    }
}

/// Definitions with indices of their own.
pub open spec fn distinct_definitions(definitions: Seq<StepDefinitionView>) -> bool {
    forall|i: int, j: int|
        0 <= i < j < definitions.len() ==> (#[trigger] definitions[i]).index != (
        #[trigger] definitions[j]).index
}

/// Whether steps are the pending steps of definitions and no others.
pub open spec fn steps_defined(
    steps: Seq<StoredStepView>,
    definitions: Seq<StepDefinitionView>,
) -> bool {
    &&& forall|i: int|
        0 <= i < definitions.len() ==> steps.contains(pending_step(#[trigger] definitions[i]))
    &&& forall|j: int|
        0 <= j < steps.len() ==> exists|i: int|
            0 <= i < definitions.len() && #[trigger] steps[j] == pending_step(
                #[trigger] definitions[i],
            )
}

/// A new run holds a pending step for each of its definitions and no others,
/// and its definitions have indices of their own.
pub proof fn created_run_holds_its_definitions(
    run_id: Seq<char>,
    definitions: Seq<StepDefinitionView>,
)
    requires
        created_run(run_id, definitions) is Ok,
    ensures
        steps_defined(created_run(run_id, definitions)->Ok_0.steps, definitions),
        distinct_definitions(definitions),
{
    lemma_defined(definitions);
}

proof fn lemma_defined(definitions: Seq<StepDefinitionView>)
    requires
        add_steps(Seq::empty(), definitions) is Ok,
    ensures
        steps_defined(add_steps(Seq::empty(), definitions)->Ok_0, definitions),
        distinct_definitions(definitions),
    decreases definitions.len(),
{
    let steps = add_steps(Seq::empty(), definitions)->Ok_0;
    if definitions.len() > 0 {
        let front = definitions.drop_last();
        lemma_defined(front);
        lemma_add_steps(Seq::empty(), front);
        let before = add_steps(Seq::empty(), front)->Ok_0;
        let step = pending_step(definitions.last());
        lemma_insert_step(before, step);
        assert forall|i: int| 0 <= i < definitions.len() implies steps.contains(
            pending_step(#[trigger] definitions[i]),
        ) by {
            if i < front.len() {
                assert(before.contains(pending_step(front[i])));
                let k = choose|k: int| 0 <= k < before.len() && before[k] == pending_step(front[i]);
                assert(steps.contains(before[k]));
            }
        }
        assert forall|j: int| 0 <= j < steps.len() implies exists|i: int|
            0 <= i < definitions.len() && #[trigger] steps[j] == pending_step(
                #[trigger] definitions[i],
            ) by {
            if steps[j] == step {
                assert(steps[j] == pending_step(definitions[definitions.len() - 1]));
            } else {
                assert(before.contains(steps[j]));
                let k = choose|k: int| 0 <= k < before.len() && before[k] == steps[j];
                let i = choose|i: int|
                    0 <= i < front.len() && before[k] == pending_step(#[trigger] front[i]);
                assert(steps[j] == pending_step(definitions[i]));
            }
        }
        assert forall|i: int, j: int| 0 <= i < j < definitions.len() implies (
        #[trigger] definitions[i]).index != (#[trigger] definitions[j]).index by {
            if j == front.len() {
                assert(before.contains(pending_step(front[i])));
                let k = choose|k: int| 0 <= k < before.len() && before[k] == pending_step(front[i]);
                assert(before[k].index != definitions[j].index);
            } else {
                assert(front[i].index != front[j].index);
            }
        }
    }
}

proof fn lemma_sequence_steps(count: nat)
    ensures
        add_steps(Seq::empty(), step_sequence(count)) == Ok::<
            Seq<StoredStepView>,
            StoreErrorView,
        >(Seq::new(count, |i: int| pending_step(step_sequence(count)[i]))),
    decreases count,
{
    let all = step_sequence(count);
    let steps = Seq::new(count, |i: int| pending_step(all[i]));
    if count > 0 {
        let shorter = step_sequence((count - 1) as nat);
        assert(all.drop_last() =~= shorter);
        lemma_sequence_steps((count - 1) as nat);
        let before = Seq::new((count - 1) as nat, |i: int| pending_step(shorter[i]));
        let last = all.last();
        assert(!has_index(before, last.index));
        assert(!has_id(before, last.id)) by {
            if has_id(before, last.id) {
                let k = choose|k: int| 0 <= k < before.len() && (#[trigger] before[k]).id == last.id;
                step_ids_are_distinct(k as nat, (count - 1) as nat);
            }
        }
        assert(insert_step(before, pending_step(last)) =~= steps);
    } else {
        assert(all =~= Seq::<StepDefinitionView>::empty());
        assert(steps =~= Seq::<StoredStepView>::empty());
    }
}

/// A run of numbered steps can always be created, with every step pending.
pub proof fn numbered_steps_can_be_created(run_id: Seq<char>, count: nat)
    ensures
        created_run(run_id, step_sequence(count)) is Ok,
        created_run(run_id, step_sequence(count))->Ok_0.steps == Seq::new(
            count,
            |i: int| pending_step(step_sequence(count)[i]),
        ),
        created_run(run_id, step_sequence(count))->Ok_0.run_id == run_id,
{
    lemma_sequence_steps(count);
}

proof fn lemma_same_steps_continue(before: RunView, after: RunView)
    requires
        after.run_id == before.run_id,
        before.events.is_prefix_of(after.events),
        before.results.is_prefix_of(after.results),
        before.current_step <= after.current_step,
        after.steps == before.steps,
    ensures
        continues(before, after),
{
}

/// Recording an event keeps a run well formed and only adds to its trail.
pub proof fn event_continues(
    run: RunView,
    event_type: Seq<char>,
    step_index: Option<nat>,
    payload: Seq<char>,
)
    ensures
        well_formed(run) ==> well_formed(with_event(run, event_type, step_index, payload)),
        continues(run, with_event(run, event_type, step_index, payload)),
{
    let after = with_event(run, event_type, step_index, payload);
    assert(run.events.is_prefix_of(after.events)) by {
        assert(after.events.take(run.events.len() as int) =~= run.events);
    }
    assert(run.results.is_prefix_of(after.results)) by {
        assert(after.results.take(run.results.len() as int) =~= run.results);
    }
}

/// A later state of a later state is a later state.
pub proof fn continues_is_transitive(a: RunView, b: RunView, c: RunView)
    requires
        continues(a, b),
        continues(b, c),
    ensures
        continues(a, c),
{
    assert(c.events.take(a.events.len() as int) =~= a.events);
    assert(c.results.take(a.results.len() as int) =~= a.results);
    assert forall|index: nat| done_output(a, index) is Some implies #[trigger] done_output(c, index)
        == done_output(a, index) by {
        assert(done_output(b, index) == done_output(a, index));
    }
}

/// Marking a run as running keeps what it holds.
pub proof fn starting_continues(run: RunView)
    ensures
        well_formed(run) ==> well_formed(started_run(run)),
        continues(run, started_run(run)),
{
    let marked = RunView { status: RunStatus::Running, ..run };
    event_continues(marked, "run.started"@, None, ""@);
    assert(continues(run, marked)) by {
        assert(run.events.take(run.events.len() as int) =~= run.events);
        assert(run.results.take(run.results.len() as int) =~= run.results);
        lemma_same_steps_continue(run, marked);
    }
    continues_is_transitive(run, marked, started_run(run));
}

/// Marking a run as succeeded keeps what it holds.
pub proof fn finishing_continues(run: RunView)
    ensures
        well_formed(run) ==> well_formed(finished_run(run)),
        continues(run, finished_run(run)),
{
    let marked = RunView { status: RunStatus::Succeeded, ..run };
    event_continues(marked, "run.finished"@, None, "status=succeeded"@);
    assert(continues(run, marked)) by {
        assert(run.events.take(run.events.len() as int) =~= run.events);
        assert(run.results.take(run.results.len() as int) =~= run.results);
        lemma_same_steps_continue(run, marked);
    }
    continues_is_transitive(run, marked, finished_run(run));
}

/// Recording the output of a tool keeps what the run holds.
pub proof fn result_continues(run: RunView, key: Seq<char>, output: Seq<char>)
    ensures
        well_formed(run) ==> well_formed(with_result(run, key, output)),
        continues(run, with_result(run, key, output)),
{
    let after = with_result(run, key, output);
    assert(after.events.take(run.events.len() as int) =~= run.events);
    assert(after.results.take(run.results.len() as int) =~= run.results);
    lemma_same_steps_continue(run, after);
}

/// A step is found where it was, as long as the indices stay.
pub proof fn lemma_updated_position(
    steps: Seq<StoredStepView>,
    position: int,
    step: StoredStepView,
    index: nat,
)
    requires
        0 <= position < steps.len(),
        step.index == steps[position].index,
    ensures
        step_position(steps.update(position, step), index) == step_position(steps, index),
{
    let after = steps.update(position, step);
    lemma_step_position(steps, index);
    lemma_step_position(after, index);
    assert forall|i: int| 0 <= i < steps.len() implies (#[trigger] after[i]).index
        == steps[i].index by {}
    assert forall|i: int| 0 <= i < steps.len() implies (#[trigger] steps[i]).index
        == after[i].index by {}
    match (step_position(steps, index), step_position(after, index)) {
        (Some(p), Some(q)) => {
            assert(after[p].index == index);
            assert(steps[q].index == index);
        },
        (Some(p), None) => {
            assert(after[p].index == index);
        },
        (None, Some(q)) => {
            assert(steps[q].index == index);
        },
        (None, None) => {},
    }
}

/// Completing a step keeps a run well formed, keeps the outputs of the steps
/// that were completed before, and leaves the step completed.
pub proof fn completion_continues(run: RunView, index: nat, output: Seq<char>)
    requires
        completed_run(run, index, output) is Ok,
    ensures
        well_formed(run) ==> well_formed(completed_run(run, index, output)->Ok_0),
        continues(run, completed_run(run, index, output)->Ok_0),
        well_formed(run) ==> done_output(completed_run(run, index, output)->Ok_0, index) is Some,
        done_output(run, index) is None && well_formed(run) ==> done_output(
            completed_run(run, index, output)->Ok_0,
            index,
        ) == Some(output),
{
    let after = completed_run(run, index, output)->Ok_0;
    lemma_step_position(run.steps, index);
    let position = step_position(run.steps, index)->0;
    assert(after.events.take(run.events.len() as int) =~= run.events);
    assert(after.results.take(run.results.len() as int) =~= run.results);
    if run.steps[position].completed {
        lemma_same_steps_continue(run, after);
    } else {
        let done = StoredStepView {
            completed: true,
            output: Some(output),
            ..run.steps[position]
        };
        assert(after.steps == run.steps.update(position, done));
        assert forall|i: nat| #[trigger] step_position(after.steps, i) == step_position(
            run.steps,
            i,
        ) by {
            lemma_updated_position(run.steps, position, done, i);
        }
        assert forall|i: nat| done_output(run, i) is Some implies #[trigger] done_output(after, i)
            == done_output(run, i) by {
            lemma_step_position(run.steps, i);
            assert(step_position(after.steps, i) == step_position(run.steps, i));
        }
        assert(step_position(after.steps, index) == Some(position));
        if well_formed(run) {
            assert(steps_in_order(after.steps));
            assert forall|i: int| 0 <= i < after.steps.len() && (
            #[trigger] after.steps[i]).completed implies after.steps[i].output is Some
                && after.steps[i].index < after.current_step by {
                if i != position {
                    assert(after.steps[i] == run.steps[i]);
                }
            }
        }
    }
}

/// Completing a step a second time changes nothing.
pub proof fn completion_is_idempotent(
    run: RunView,
    index: nat,
    output: Seq<char>,
    second: Seq<char>,
)
    requires
        completed_run(run, index, output) is Ok,
    ensures
        completed_run(completed_run(run, index, output)->Ok_0, index, second) == completed_run(
            run,
            index,
            output,
        ),
{
    let after = completed_run(run, index, output)->Ok_0;
    lemma_step_position(run.steps, index);
    let position = step_position(run.steps, index)->0;
    if !run.steps[position].completed {
        let done = StoredStepView {
            completed: true,
            output: Some(output),
            ..run.steps[position]
        };
        lemma_updated_position(run.steps, position, done, index);
    }
}

/// Completing a step that is there, and then again: both succeed, the first
/// output stays, no other step and no other run changes, and the run stands past
/// the step, or further where it did before. Where the run or the step is
/// missing, it is told.
pub proof fn completions_keep_the_first_output(
    runs: Seq<RunView>,
    run_id: Seq<char>,
    index: nat,
    output: Seq<char>,
    second: Seq<char>,
)
    ensures
        ({
            let once = with_completion(runs, run_id, index, output);
            match completed_place(runs, run_id, index) {
                None => once == Err::<Seq<RunView>, StoreErrorView>(missing_step(run_id, index)),
                Some((at, place)) => {
                    let run = runs[at];
                    let step = run.steps[place];
                    let after = once->Ok_0[at];
                    &&& once is Ok
                    &&& with_completion(once->Ok_0, run_id, index, second) == once
                    &&& once->Ok_0 == runs.update(at, after)
                    &&& after.run_id == run_id
                    &&& after.steps == run.steps.update(
                        place,
                        StoredStepView {
                            completed: true,
                            output: if step.completed {
                                step.output
                            } else {
                                Some(output)
                            },
                            ..step
                        },
                    )
                    &&& after.current_step == if run.current_step < index + 1 {
                        index + 1
                    } else {
                        run.current_step
                    }
                },
            }
        }),
{
    lemma_run_position(runs, run_id);
    if let Some((at, place)) = completed_place(runs, run_id, index) {
        let run = runs[at];
        lemma_step_position(run.steps, index);
        let after = completed_run(run, index, output)->Ok_0;
        let changed = runs.update(at, after);
        completion_is_idempotent(run, index, output, second);
        lemma_replaced_position(runs, run_id, after);
        assert(after.steps =~= run.steps.update(place, after.steps[place]));
        assert(changed.update(at, after) =~= changed);
    }
}

/// Where the run with an identifier stands, and in it the step with an index.
pub open spec fn completed_place(runs: Seq<RunView>, run_id: Seq<char>, index: nat) -> Option<
    (int, int),
> {
    match run_position(runs, run_id) {
        None => None,
        Some(at) => match step_position(runs[at].steps, index) {
            None => None,
            Some(place) => Some((at, place)),
        },
    }
}

proof fn lemma_replaced_position(runs: Seq<RunView>, run_id: Seq<char>, after: RunView)
    requires
        run_position(runs, run_id) is Some,
        after.run_id == run_id,
    ensures
        run_position(runs.update(run_position(runs, run_id)->0, after), run_id) == run_position(
            runs,
            run_id,
        ),
    decreases runs.len(),
{
    let at = run_position(runs, run_id)->0;
    let front = runs.drop_last();
    lemma_run_position(runs, run_id);
    lemma_run_position(front, run_id);
    if run_position(front, run_id) is Some {
        lemma_replaced_position(front, run_id, after);
        assert(runs.update(at, after).drop_last() =~= front.update(at, after));
    } else {
        assert(runs.update(at, after).drop_last() =~= front);
    }
}

/// Giving a step a tool keeps a run well formed and keeps every output.
pub proof fn configuration_continues(run: RunView, index: nat, spec: ToolStepSpecView)
    requires
        configured_run(run, index, spec) is Ok,
    ensures
        well_formed(run) ==> well_formed(configured_run(run, index, spec)->Ok_0),
        continues(run, configured_run(run, index, spec)->Ok_0),
{
    let after = configured_run(run, index, spec)->Ok_0;
    lemma_step_position(run.steps, index);
    let position = step_position(run.steps, index)->0;
    let changed = StoredStepView { spec: Some(spec), ..run.steps[position] };
    assert(after.events.take(run.events.len() as int) =~= run.events);
    assert(after.results.take(run.results.len() as int) =~= run.results);
    assert forall|i: nat| done_output(run, i) is Some implies #[trigger] done_output(after, i)
        == done_output(run, i) by {
        lemma_updated_position(run.steps, position, changed, i);
        lemma_step_position(run.steps, i);
    }
    if well_formed(run) {
        assert(steps_in_order(after.steps));
        assert forall|i: int| 0 <= i < after.steps.len() && (
        #[trigger] after.steps[i]).completed implies after.steps[i].output is Some
            && after.steps[i].index < after.current_step by {
            if i != position {
                assert(after.steps[i] == run.steps[i]);
            }
        }
    }
}

/// Adding planned steps keeps a run well formed and keeps every output.
pub proof fn expansion_continues(run: RunView, definitions: Seq<StepDefinitionView>)
    requires
        well_formed(run),
        expanded_run(run, definitions) is Ok,
    ensures
        well_formed(expanded_run(run, definitions)->Ok_0),
        continues(run, expanded_run(run, definitions)->Ok_0),
{
    let after = expanded_run(run, definitions)->Ok_0;
    lemma_add_steps(run.steps, definitions);
    assert(after.events.take(run.events.len() as int) =~= run.events);
    assert(after.results.take(run.results.len() as int) =~= run.results);
    assert forall|i: nat| done_output(run, i) is Some implies #[trigger] done_output(after, i)
        == done_output(run, i) by {
        lemma_step_position(run.steps, i);
        let p = step_position(run.steps, i)->0;
        assert(after.steps.contains(run.steps[p]));
        let q = choose|q: int| 0 <= q < after.steps.len() && after.steps[q] == run.steps[p];
        lemma_position_is_unique(after.steps, q);
    }
    assert forall|i: int| 0 <= i < after.steps.len() && (
    #[trigger] after.steps[i]).completed implies after.steps[i].output is Some
        && after.steps[i].index < after.current_step by {
        assert(run.steps.contains(after.steps[i]));
        let k = choose|k: int| 0 <= k < run.steps.len() && run.steps[k] == after.steps[i];
        assert(run.steps[k].completed);
    }
}

/// An operation on one run leaves every other run as it was.
pub proof fn other_runs_are_untouched(
    runs: Seq<RunView>,
    run_id: Seq<char>,
    change: spec_fn(RunView) -> Result<RunView, StoreErrorView>,
    other: int,
)
    requires
        0 <= other < runs.len(),
        runs[other].run_id != run_id,
        on_run(runs, run_id, change) is Ok,
    ensures
        on_run(runs, run_id, change)->Ok_0.len() == runs.len(),
        on_run(runs, run_id, change)->Ok_0[other] == runs[other],
{
    lemma_run_position(runs, run_id);
}

/// Runs with identifiers of their own.
pub open spec fn runs_distinct(runs: Seq<RunView>) -> bool {
    forall|i: int, j: int|
        0 <= i < j < runs.len() ==> (#[trigger] runs[i]).run_id != (#[trigger] runs[j]).run_id
}

/// Creating a run keeps the identifiers of the runs distinct.
pub proof fn creation_keeps_runs_distinct(
    runs: Seq<RunView>,
    run_id: Seq<char>,
    definitions: Seq<StepDefinitionView>,
)
    requires
        runs_distinct(runs),
        with_run(runs, run_id, definitions) is Ok,
    ensures
        runs_distinct(with_run(runs, run_id, definitions)->Ok_0),
{
    lemma_run_position(runs, run_id);
}

// What operations record

/// Whether a trail is another one with one more event, which has the next
/// number.
pub open spec fn one_more_event(
    before: Seq<EventView>,
    after: Seq<EventView>,
    event_type: Seq<char>,
    step_index: Option<nat>,
    payload: Seq<char>,
) -> bool {
    &&& after.len() == before.len() + 1
    &&& forall|i: int| 0 <= i < before.len() ==> #[trigger] after[i] == before[i]
    &&& after.last().sequence == before.len()
    &&& after.last().event_type == event_type
    &&& after.last().step_index == step_index
    &&& after.last().payload == payload
}

/// Recording an event adds it to the trail, and starting and finishing a run add
/// one that tells it and set the state; nothing else of the run changes.
pub proof fn beginnings_and_ends_are_recorded(
    run: RunView,
    event_type: Seq<char>,
    step_index: Option<nat>,
    payload: Seq<char>,
)
    ensures
        ({
            let told = with_event(run, event_type, step_index, payload);
            &&& one_more_event(run.events, told.events, event_type, step_index, payload)
            &&& told == (RunView { events: told.events, ..run })
        }),
        ({
            let started = started_run(run);
            &&& one_more_event(run.events, started.events, "run.started"@, None, ""@)
            &&& started == (RunView {
                events: started.events,
                status: RunStatus::Running,
                ..run
            })
        }),
        ({
            let finished = finished_run(run);
            &&& one_more_event(
                run.events,
                finished.events,
                "run.finished"@,
                None,
                "status=succeeded"@,
            )
            &&& finished == (RunView {
                events: finished.events,
                status: RunStatus::Succeeded,
                ..run
            })
        }),
{
}

/// A new run is empty but for its pending steps: it has its identifier, has not
/// begun, and its trail tells how many steps it has.
pub proof fn new_runs_have_not_begun(run_id: Seq<char>, definitions: Seq<StepDefinitionView>)
    requires
        created_run(run_id, definitions) is Ok,
    ensures
        ({
            let run = created_run(run_id, definitions)->Ok_0;
            &&& run.run_id == run_id
            &&& run.status == RunStatus::Created
            &&& run.current_step == 0
            &&& run.steps.len() == definitions.len()
            &&& run.results.len() == 0
            &&& one_more_event(
                Seq::empty(),
                run.events,
                "run.created"@,
                None,
                "steps="@ + decimal(definitions.len()),
            )
        }),
{
    created_run_is_well_formed(run_id, definitions);
}

/// Completing a step is recorded once: a pending step adds that it is done and
/// the key of its checkpoint, and one that is done adds nothing. Nothing else of
/// the run changes but the step and how far it has come.
pub proof fn completions_are_recorded_once(run: RunView, index: nat, output: Seq<char>)
    requires
        completed_run(run, index, output) is Ok,
    ensures
        ({
            let after = completed_run(run, index, output)->Ok_0;
            let place = step_position(run.steps, index)->0;
            &&& after.run_id == run.run_id
            &&& after.status == run.status
            &&& after.results == run.results
            &&& run.steps[place].completed ==> after.events == run.events && after.steps
                == run.steps
            &&& !run.steps[place].completed ==> exists|middle: Seq<EventView>|
                #[trigger] one_more_event(
                    run.events,
                    middle,
                    "step.completed"@,
                    Some(index),
                    ""@,
                ) && one_more_event(
                    middle,
                    after.events,
                    "checkpoint.saved"@,
                    Some(index),
                    "idempotency_key="@ + run.run_id + ":"@ + decimal(index),
                )
        }),
{
    let place = step_position(run.steps, index)->0;
    lemma_step_position(run.steps, index);
    let after = completed_run(run, index, output)->Ok_0;
    if !run.steps[place].completed {
        let middle = run.events.push(
            EventView {
                sequence: run.events.len(),
                event_type: "step.completed"@,
                step_index: Some(index),
                payload: ""@,
            },
        );
        assert(one_more_event(run.events, middle, "step.completed"@, Some(index), ""@));
        reveal_strlit(":");
        assert("idempotency_key="@ + (run.run_id.push(':') + decimal(index))
            =~= "idempotency_key="@ + run.run_id + ":"@ + decimal(index));
    }
}

/// Giving a step a tool changes the tool of that step and nothing else.
pub proof fn configuration_changes_one_step(run: RunView, index: nat, spec: ToolStepSpecView)
    ensures
        configured_run(run, index, spec) is Ok <==> has_index(run.steps, index),
        configured_run(run, index, spec) matches Ok(after) ==> {
            let place = step_position(run.steps, index)->0;
            &&& 0 <= place < run.steps.len()
            &&& run.steps[place].index == index
            &&& after == (RunView { steps: after.steps, ..run })
            &&& after.steps.len() == run.steps.len()
            &&& after.steps[place] == (StoredStepView { spec: Some(spec), ..run.steps[place] })
            &&& forall|i: int|
                0 <= i < run.steps.len() && i != place ==> #[trigger] after.steps[i]
                    == run.steps[i]
        },
{
    lemma_step_position(run.steps, index);
    if step_position(run.steps, index) is Some {
        assert(run.steps[step_position(run.steps, index)->0].index == index);
    }
}

/// An output that is recorded under a key is found under it, unless one was
/// there before, which stays; other keys are not touched.
pub proof fn results_are_found_by_their_key(
    run: RunView,
    key: Seq<char>,
    output: Seq<char>,
    other: Seq<char>,
)
    ensures
        ({
            let after = with_result(run, key, output);
            &&& after == (RunView { results: after.results, ..run })
            &&& result_for(run.results, key) is None ==> result_for(after.results, key) == Some(
                output,
            )
            &&& result_for(run.results, key) is Some ==> result_for(after.results, key)
                == result_for(run.results, key)
            &&& other != key ==> result_for(after.results, other) == result_for(run.results, other)
        }),
        result_for(Seq::empty(), key) is None,
{
    let after = with_result(run, key, output);
    assert(after.results.drop_last() =~= run.results);
}

/// Whether steps can be added: none of them has an identifier or an index that
/// is taken, by a step that is there or by another of them.
pub open spec fn can_be_added(
    steps: Seq<StoredStepView>,
    definitions: Seq<StepDefinitionView>,
) -> bool {
    &&& forall|i: int, j: int|
        0 <= i < definitions.len() && 0 <= j < steps.len() ==> (#[trigger] definitions[i]).id != (
        #[trigger] steps[j]).id && definitions[i].index != steps[j].index
    &&& forall|i: int, j: int|
        0 <= i < j < definitions.len() ==> (#[trigger] definitions[i]).id != (
        #[trigger] definitions[j]).id && definitions[i].index != definitions[j].index
}

proof fn lemma_insert_members(
    steps: Seq<StoredStepView>,
    step: StoredStepView,
    other: StoredStepView,
)
    ensures
        insert_step(steps, step).len() == steps.len() + 1,
        insert_step(steps, step).contains(other) <==> steps.contains(other) || other == step,
    decreases steps.len(),
{
    let after = insert_step(steps, step);
    if steps.len() == 0 || steps.last().index < step.index {
        lemma_pushed_member(steps, step, other);
    } else {
        let front = steps.drop_last();
        lemma_insert_members(front, step, other);
        lemma_pushed_member(insert_step(front, step), steps.last(), other);
        lemma_pushed_member(front, steps.last(), other);
        assert(front.push(steps.last()) =~= steps);
    }
}

proof fn lemma_pushed_member(
    steps: Seq<StoredStepView>,
    step: StoredStepView,
    other: StoredStepView,
)
    ensures
        steps.push(step).contains(other) <==> steps.contains(other) || other == step,
{
    let after = steps.push(step);
    if steps.contains(other) {
        let i = choose|i: int| 0 <= i < steps.len() && steps[i] == other;
        assert(after[i] == other);
    }
    assert(after[steps.len() as int] == step);
    if after.contains(other) {
        let i = choose|i: int| 0 <= i < after.len() && after[i] == other;
        if i < steps.len() {
            assert(steps[i] == other);
        }
    }
}

/// Whether a step is there or is the pending one of a definition.
pub open spec fn is_or_becomes(
    steps: Seq<StoredStepView>,
    definitions: Seq<StepDefinitionView>,
    step: StoredStepView,
) -> bool {
    steps.contains(step) || exists|i: int|
        0 <= i < definitions.len() && step == pending_step(#[trigger] definitions[i])
}

proof fn lemma_added_members(
    steps: Seq<StoredStepView>,
    definitions: Seq<StepDefinitionView>,
    step: StoredStepView,
)
    requires
        add_steps(steps, definitions) is Ok,
    ensures
        add_steps(steps, definitions)->Ok_0.contains(step) <==> is_or_becomes(
            steps,
            definitions,
            step,
        ),
        add_steps(steps, definitions)->Ok_0.len() == steps.len() + definitions.len(),
    decreases definitions.len(),
{
    if definitions.len() > 0 {
        let front = definitions.drop_last();
        let last = definitions.last();
        lemma_added_members(steps, front, step);
        lemma_insert_members(add_steps(steps, front)->Ok_0, pending_step(last), step);
        if exists|i: int| 0 <= i < front.len() && step == pending_step(#[trigger] front[i]) {
            let i = choose|i: int| 0 <= i < front.len() && step == pending_step(#[trigger] front[i]);
            assert(step == pending_step(definitions[i]));
        }
        if step == pending_step(last) {
            assert(step == pending_step(definitions[definitions.len() - 1]));
        }
        if exists|i: int|
            0 <= i < definitions.len() && step == pending_step(#[trigger] definitions[i]) {
            let i = choose|i: int|
                0 <= i < definitions.len() && step == pending_step(#[trigger] definitions[i]);
            if i < front.len() {
                assert(step == pending_step(front[i]));
            }
        }
    }
}

proof fn lemma_can_be_added(steps: Seq<StoredStepView>, definitions: Seq<StepDefinitionView>)
    ensures
        add_steps(steps, definitions) is Ok <==> can_be_added(steps, definitions),
    decreases definitions.len(),
{
    if definitions.len() > 0 {
        let front = definitions.drop_last();
        let last = definitions.last();
        let at = definitions.len() - 1;
        assert(definitions[at] == last);
        lemma_can_be_added(steps, front);
        if can_be_added(steps, definitions) {
            assert(can_be_added(steps, front)) by {
                assert forall|i: int, j: int| 0 <= i < front.len() && 0 <= j < steps.len() implies (
                #[trigger] front[i]).id != (#[trigger] steps[j]).id && front[i].index
                    != steps[j].index by {
                    assert(definitions[i] == front[i]);
                }
                assert forall|i: int, j: int| 0 <= i < j < front.len() implies (
                #[trigger] front[i]).id != (#[trigger] front[j]).id && front[i].index
                    != front[j].index by {
                    assert(definitions[i] == front[i]);
                    assert(definitions[j] == front[j]);
                }
            }
            let before = add_steps(steps, front)->Ok_0;
            assert forall|k: int| 0 <= k < before.len() implies (#[trigger] before[k]).id
                != last.id && before[k].index != last.index by {
                lemma_added_members(steps, front, before[k]);
                assert(before.contains(before[k]));
                if steps.contains(before[k]) {
                    let j = choose|j: int| 0 <= j < steps.len() && steps[j] == before[k];
                    assert(definitions[at].id != steps[j].id);
                } else {
                    let i = choose|i: int|
                        0 <= i < front.len() && before[k] == pending_step(#[trigger] front[i]);
                    assert(definitions[i] == front[i]);
                    assert(definitions[i].id != definitions[at].id);
                }
            }
        }
        if add_steps(steps, definitions) is Ok {
            let before = add_steps(steps, front)->Ok_0;
            assert forall|j: int| 0 <= j < steps.len() implies last.id != (#[trigger] steps[j]).id
                && last.index != steps[j].index by {
                lemma_added_members(steps, front, steps[j]);
                assert(steps.contains(steps[j]));
                let k = choose|k: int| 0 <= k < before.len() && before[k] == steps[j];
                assert(before[k].id != last.id && before[k].index != last.index);
            }
            assert forall|i: int| 0 <= i < front.len() implies (#[trigger] front[i]).id != last.id
                && front[i].index != last.index by {
                let step = pending_step(front[i]);
                lemma_added_members(steps, front, step);
                let k = choose|k: int| 0 <= k < before.len() && before[k] == step;
                assert(before[k].id != last.id && before[k].index != last.index);
            }
            assert forall|i: int, j: int|
                0 <= i < definitions.len() && 0 <= j < steps.len() implies (
            #[trigger] definitions[i]).id != (#[trigger] steps[j]).id && definitions[i].index
                != steps[j].index by {
                if i < at {
                    assert(front[i] == definitions[i]);
                }
            }
            assert forall|i: int, j: int| 0 <= i < j < definitions.len() implies (
            #[trigger] definitions[i]).id != (#[trigger] definitions[j]).id && definitions[i].index
                != definitions[j].index by {
                assert(front[i] == definitions[i]);
                if j < at {
                    assert(front[j] == definitions[j]);
                }
            }
        }
    }
}

/// A run can be created exactly if its steps have identifiers and indices of
/// their own.
pub proof fn runs_need_distinct_steps(run_id: Seq<char>, definitions: Seq<StepDefinitionView>)
    ensures
        created_run(run_id, definitions) is Ok <==> forall|i: int, j: int|
            0 <= i < j < definitions.len() ==> (#[trigger] definitions[i]).id != (
            #[trigger] definitions[j]).id && definitions[i].index != definitions[j].index,
{
    lemma_can_be_added(Seq::empty(), definitions);
}

/// Steps can be added to a run exactly if their identifiers and indices are not
/// taken. The run then holds the steps that it had and a pending one for each
/// definition, and its trail tells how many were added; nothing else changes.
pub proof fn expansion_adds_every_step(
    run: RunView,
    definitions: Seq<StepDefinitionView>,
    step: StoredStepView,
)
    ensures
        expanded_run(run, definitions) is Ok <==> can_be_added(run.steps, definitions),
        expanded_run(run, definitions) matches Ok(after) ==> {
            &&& after.steps.contains(step) <==> is_or_becomes(run.steps, definitions, step)
            &&& after.steps.len() == run.steps.len() + definitions.len()
            &&& one_more_event(
                run.events,
                after.events,
                "run.plan_expanded"@,
                None,
                "steps="@ + decimal(definitions.len()),
            )
            &&& after == (RunView { steps: after.steps, events: after.events, ..run })
        },
        forall|definition: StepDefinitionView|
            ({
                let pending = #[trigger] pending_step(definition);
                &&& pending.index == definition.index
                &&& pending.id == definition.id
                &&& !pending.completed
                &&& pending.output is None
                &&& pending.spec is None
            }),
{
    lemma_can_be_added(run.steps, definitions);
    if expanded_run(run, definitions) is Ok {
        lemma_added_members(run.steps, definitions, step);
    }
}

/// An operation on a run changes the first run with its identifier and gives
/// what it made of it; where there is none, it is told.
pub proof fn operations_change_the_run_that_is_named(
    runs: Seq<RunView>,
    run_id: Seq<char>,
    change: spec_fn(RunView) -> Result<RunView, StoreErrorView>,
)
    ensures
        (forall|i: int| 0 <= i < runs.len() ==> (#[trigger] runs[i]).run_id != run_id) ==> on_run(
            runs,
            run_id,
            change,
        ) == Err::<Seq<RunView>, StoreErrorView>(StoreErrorView::RunNotFound(run_id)),
        forall|i: int|
            0 <= i < runs.len() && (#[trigger] runs[i]).run_id == run_id && (forall|j: int|
                0 <= j < i ==> (#[trigger] runs[j]).run_id != run_id) ==> match change(runs[i]) {
                Ok(run) => on_run(runs, run_id, change) == Ok::<Seq<RunView>, StoreErrorView>(
                    runs.update(i, run),
                ),
                Err(error) => on_run(runs, run_id, change) == Err::<Seq<RunView>, StoreErrorView>(
                    error,
                ),
            },
{
    lemma_run_position(runs, run_id);
}

/// A run is created exactly if its identifier is free and its steps can be
/// planned. It is then the last of the runs, the others stay as they are, and it
/// is found.
pub proof fn created_runs_are_found(
    runs: Seq<RunView>,
    run_id: Seq<char>,
    definitions: Seq<StepDefinitionView>,
)
    ensures
        with_run(runs, run_id, definitions) is Ok <==> created_run(run_id, definitions) is Ok && (
        forall|i: int| 0 <= i < runs.len() ==> (#[trigger] runs[i]).run_id != run_id),
        with_run(runs, run_id, definitions) matches Ok(after) ==> {
            &&& after.len() == runs.len() + 1
            &&& forall|i: int| 0 <= i < runs.len() ==> #[trigger] after[i] == runs[i]
            &&& created_run(run_id, definitions) == Ok::<RunView, StoreErrorView>(after.last())
            &&& run_position(after, run_id) == Some(runs.len() as int)
        },
{
    lemma_run_position(runs, run_id);
    if let Ok(after) = with_run(runs, run_id, definitions) {
        assert(after.drop_last() =~= runs);
    }
}

/// What is told of a run is what it holds.
pub proof fn summaries_tell_the_run(run: RunView)
    ensures
        run_summary(run).run_id == run.run_id,
        run_summary(run).status == run.status,
        run_summary(run).current_step == run.current_step,
        run_summary(run).total_steps == run.steps.len(),
{
}

/// What an operation on the store comes to is settled by what is expected of it:
/// it succeeds exactly if success is expected, with the runs that are expected,
/// and a failure leaves the runs as they were.
pub proof fn failed_operations_change_nothing(
    before: Seq<RunView>,
    after: Seq<RunView>,
    result: Result<(), StoreErrorView>,
    expected: Result<Seq<RunView>, StoreErrorView>,
)
    requires
        applied(before, after, result, expected),
    ensures
        result is Ok <==> expected is Ok,
        result is Ok ==> after == expected->Ok_0,
        result is Err ==> after == before && result->Err_0 == expected->Err_0,
{
}

/// A step is missing exactly if no step of the run has its index, and the error
/// then names the index and the run.
pub proof fn missing_steps_are_named(
    run: RunView,
    index: nat,
    output: Seq<char>,
    spec: ToolStepSpecView,
)
    ensures
        completed_run(run, index, output) is Err <==> !has_index(run.steps, index),
        completed_run(run, index, output) matches Err(error) ==> {
            &&& configured_run(run, index, spec) == Err::<RunView, StoreErrorView>(error)
            &&& error matches StoreErrorView::RunNotFound(text) && text == "step "@ + decimal(index)
                + " in run `"@ + run.run_id + "`"@
        },
{
    lemma_step_position(run.steps, index);
    if step_position(run.steps, index) is Some {
        assert(run.steps[step_position(run.steps, index)->0].index == index);
    }
}

} // verus!
