//! Runs, their status and the steps that they are made of.

use crate::number::{
    decimal, decimal_text, is_digit, lemma_decimal, padding_keeps_the_value, unsigned_digits,
    unsigned_number, zero_padded, zero_padded_text,
};
use crate::text::{
    joined, lemma_split_first, lemma_split_last, push_char, res_view, same_text, views,
};
use vstd::prelude::*;
use vstd::string::StringExecFns;

verus! {

/// How far a run has come.
#[derive(Clone, Copy, Debug, PartialEq, Eq, Structural)]
pub enum RunStatus {
    Created,
    Running,
    Succeeded,
}

impl View for RunStatus {
    type V = RunStatus;

    open spec fn view(&self) -> RunStatus {
        *self
    }
}

/// The word for a status.
pub open spec fn status_name(status: RunStatus) -> Seq<char> {
    match status {
        RunStatus::Created => "created"@,
        RunStatus::Running => "running"@,
        RunStatus::Succeeded => "succeeded"@,
    }
}

/// The status that a word stands for, or the message that it stands for none.
pub open spec fn status_of(word: Seq<char>) -> Result<RunStatus, Seq<char>> {
    if word == "created"@ {
        Ok(RunStatus::Created)
    } else if word == "running"@ {
        Ok(RunStatus::Running)
    } else if word == "succeeded"@ {
        Ok(RunStatus::Succeeded)
    } else {
        Err("unknown run status `"@ + word + "`"@)
    }
}

impl RunStatus {
    /// The word for a status.
    pub fn as_str(&self) -> (word: &'static str)
        ensures
            word@ == status_name(*self),
    {
        match self {
            RunStatus::Created => "created",
            RunStatus::Running => "running",
            RunStatus::Succeeded => "succeeded",
        }
    }

    /// The status that a word stands for.
    pub fn try_from(value: &str) -> (result: Result<RunStatus, String>)
        ensures
            res_view(result) == status_of(value@),
    {
        if same_text(value, "created") {
            Ok(RunStatus::Created)
        } else if same_text(value, "running") {
            Ok(RunStatus::Running)
        } else if same_text(value, "succeeded") {
            Ok(RunStatus::Succeeded)
        } else {
            let mut message = "unknown run status `".to_owned();
            message.append(value);
            message.append("`");
            Err(message)
        }
    }
}

/// Reading the word for a status gives the status back.
pub proof fn status_name_reads_back(status: RunStatus)
    ensures
        status_of(status_name(status)) == Ok::<RunStatus, Seq<char>>(status),
{
    reveal_strlit("created");
    reveal_strlit("running");
    reveal_strlit("succeeded");
    assert("created"@[0] == 'c');
    assert("running"@[0] == 'r');
    assert("succeeded"@[0] == 's');
}

/// One step of a run, as it is planned.
#[derive(Debug)]
pub struct StepDefinition {
    pub index: usize,
    pub id: String,
}

/// The mathematical form of a planned step.
pub struct StepDefinitionView {
    pub index: nat,
    pub id: Seq<char>,
}

impl View for StepDefinition {
    type V = StepDefinitionView;

    open spec fn view(&self) -> StepDefinitionView {
        StepDefinitionView { index: self.index as nat, id: self.id@ }
    }
}

/// The identifier of the step at a position.
pub open spec fn step_id(index: nat) -> Seq<char> {
    "step-"@ + zero_padded(index + 1, 3)
}

/// The steps of a run of `count` steps.
pub open spec fn step_sequence(count: nat) -> Seq<StepDefinitionView> {
    Seq::new(count, |i: int| StepDefinitionView { index: i as nat, id: step_id(i as nat) })
}

impl StepDefinition {
    /// The steps of a run of `count` steps.
    pub fn sequence(count: usize) -> (steps: Vec<StepDefinition>)
        ensures
            views(steps@) == step_sequence(count as nat),
    {
        let mut steps: Vec<StepDefinition> = Vec::new();
        let mut index: usize = 0;
        while index < count
            invariant
                index <= count,
                steps@.len() == index,
                forall|i: int| 0 <= i < index ==> (#[trigger] steps@[i])@ == step_sequence(count as nat)[i],
            decreases count - index,
        {
            let mut id = "step-".to_owned();
            id.append(zero_padded_text(index as u64 + 1, 3).as_str());
            steps.push(StepDefinition { index, id });
            index = index + 1;
        }
        proof {
            assert(views(steps@) =~= step_sequence(count as nat));
        }
        steps
    }
}

/// The steps of a run have identifiers of their own.
pub proof fn step_ids_are_distinct(a: nat, b: nat)
    requires
        step_id(a) == step_id(b),
    ensures
        a == b,
{
    let prefix = "step-"@;
    assert((prefix + zero_padded(a + 1, 3)).skip(prefix.len() as int) =~= zero_padded(a + 1, 3));
    assert((prefix + zero_padded(b + 1, 3)).skip(prefix.len() as int) =~= zero_padded(b + 1, 3));
    crate::number::zero_padded_is_injective(a + 1, b + 1, 3);
}

/// The identifier of a run that a process starts at a time.
pub open spec fn run_id_for(seconds: nat, nanos: nat, process: nat) -> Seq<char> {
    "run-"@ + decimal(seconds) + "-"@ + decimal(nanos) + "-"@ + decimal(process)
}

/// The identifier of a run that a process starts at a time.
pub fn new_run_id(seconds: u64, nanos: u32, process: u32) -> (id: String)
    ensures
        id@ == run_id_for(seconds as nat, nanos as nat, process as nat),
{
    let mut id = "run-".to_owned();
    id.append(decimal_text(seconds).as_str());
    id.append("-");
    id.append(decimal_text(nanos as u64).as_str());
    id.append("-");
    id.append(decimal_text(process as u64).as_str());
    id
}

proof fn lemma_no_dash(n: nat)
    ensures
        !decimal(n).contains('-'),
{
    lemma_decimal(n);
    assert forall|i: int| 0 <= i < decimal(n).len() implies decimal(n)[i] != '-' by {
        assert(crate::number::is_digit(decimal(n)[i]));
    }
}

/// Runs that start at different times or in different processes have different
/// identifiers.
pub proof fn run_ids_are_distinct(
    seconds_a: nat,
    nanos_a: nat,
    process_a: nat,
    seconds_b: nat,
    nanos_b: nat,
    process_b: nat,
)
    requires
        run_id_for(seconds_a, nanos_a, process_a) == run_id_for(seconds_b, nanos_b, process_b),
    ensures
        seconds_a == seconds_b,
        nanos_a == nanos_b,
        process_a == process_b,
{
    reveal_strlit("-");
    let prefix = "run-"@;
    let inner_a = decimal(nanos_a).push('-') + decimal(process_a);
    let inner_b = decimal(nanos_b).push('-') + decimal(process_b);
    let whole_a = decimal(seconds_a).push('-') + inner_a;
    let whole_b = decimal(seconds_b).push('-') + inner_b;
    assert(run_id_for(seconds_a, nanos_a, process_a) =~= prefix + whole_a);
    assert(run_id_for(seconds_b, nanos_b, process_b) =~= prefix + whole_b);
    assert((prefix + whole_a).skip(prefix.len() as int) =~= whole_a);
    assert((prefix + whole_b).skip(prefix.len() as int) =~= whole_b);
    lemma_no_dash(seconds_a);
    lemma_no_dash(seconds_b);
    lemma_no_dash(nanos_a);
    lemma_no_dash(nanos_b);
    lemma_split_first(decimal(seconds_a), inner_a, decimal(seconds_b), inner_b, '-');
    lemma_split_first(decimal(nanos_a), decimal(process_a), decimal(nanos_b), decimal(process_b), '-');
    crate::number::decimal_is_injective(seconds_a, seconds_b);
    crate::number::decimal_is_injective(nanos_a, nanos_b);
    crate::number::decimal_is_injective(process_a, process_b);
}

/// The key under which the effect of a step is recorded.
pub open spec fn key_for(run_id: Seq<char>, index: nat) -> Seq<char> {
    run_id.push(':') + decimal(index)
}

/// The key under which the effect of a step is recorded.
pub fn idempotency_key(run_id: &str, index: usize) -> (key: String)
    ensures
        key@ == key_for(run_id@, index as nat),
{
    let mut key = run_id.to_owned();
    push_char(&mut key, ':');
    key.append(decimal_text(index as u64).as_str());
    key
}

/// No two steps, of one run or of two, share a key.
pub proof fn idempotency_keys_are_distinct(run_a: Seq<char>, a: nat, run_b: Seq<char>, b: nat)
    requires
        key_for(run_a, a) == key_for(run_b, b),
    ensures
        run_a == run_b,
        a == b,
{
    lemma_decimal(a);
    lemma_decimal(b);
    assert forall|i: int| 0 <= i < decimal(a).len() implies decimal(a)[i] != ':' by {
        assert(crate::number::is_digit(decimal(a)[i]));
    }
    assert forall|i: int| 0 <= i < decimal(b).len() implies decimal(b)[i] != ':' by {
        assert(crate::number::is_digit(decimal(b)[i]));
    }
    lemma_split_last(run_a, decimal(a), run_b, decimal(b), ':');
    crate::number::decimal_is_injective(a, b);
}

// Laws

/// The states of a run have names of their own, and only these names are states.
pub proof fn states_have_their_names(word: Seq<char>, status: RunStatus)
    ensures
        status_name(RunStatus::Created) == "created"@,
        status_name(RunStatus::Running) == "running"@,
        status_name(RunStatus::Succeeded) == "succeeded"@,
        status_of(word) == Ok::<RunStatus, Seq<char>>(status) <==> word == status_name(status),
{
    status_name_reads_back(status);
}

/// Steps that are numbered have the indices from zero on, and their identifiers
/// count them from one, with three digits or as many as it takes.
pub proof fn numbered_steps_count_up(count: nat, i: int)
    requires
        0 <= i < count,
    ensures
        step_sequence(count).len() == count,
        step_sequence(count)[i].index == i,
        ({
            let id = step_sequence(count)[i].id;
            let digits = id.skip(5);
            &&& id.len() >= 8
            &&& id.take(5) == "step-"@
            &&& unsigned_number(digits) == Some((i + 1) as nat)
            &&& i + 1 < 1000 ==> digits.len() == 3
        }),
{
    reveal_strlit("step-");
    let id = step_id(i as nat);
    let digits = zero_padded((i + 1) as nat, 3);
    padding_keeps_the_value((i + 1) as nat, 3);
    assert(id.take(5) =~= "step-"@);
    assert(id.skip(5) =~= digits);
    assert(is_digit(digits[0]));
    assert(unsigned_digits(digits) == digits);
    if i + 1 < 1000 {
        lemma_short((i + 1) as nat);
    }
}

proof fn lemma_short(n: nat)
    requires
        n < 1000,
    ensures
        decimal(n).len() <= 3,
{
    reveal_with_fuel(decimal, 3);
}

/// What identifiers and keys are made of: the time and the process of a run, and
/// a run and the index of a step.
pub proof fn identifiers_hold_their_parts(
    seconds: nat,
    nanos: nat,
    process: nat,
    run_id: Seq<char>,
    index: nat,
)
    ensures
        run_id_for(seconds, nanos, process) == joined(
            seq!["run"@, decimal(seconds), decimal(nanos), decimal(process)],
            "-"@,
        ),
        key_for(run_id, index) == joined(seq![run_id, decimal(index)], ":"@),
{
    let parts = seq!["run"@, decimal(seconds), decimal(nanos), decimal(process)];
    assert(parts.drop_last() =~= seq!["run"@, decimal(seconds), decimal(nanos)]);
    assert(parts.drop_last().drop_last() =~= seq!["run"@, decimal(seconds)]);
    assert(parts.drop_last().drop_last().drop_last() =~= seq!["run"@]);
    let pair = seq![run_id, decimal(index)];
    assert(pair.drop_last() =~= seq![run_id]);
    reveal_with_fuel(joined, 4);
    reveal_strlit("run-");
    reveal_strlit("run");
    reveal_strlit("-");
    reveal_strlit(":");
    assert("run-"@ =~= "run"@ + "-"@);
    assert(joined(parts, "-"@) == "run"@ + "-"@ + decimal(seconds) + "-"@ + decimal(nanos) + "-"@
        + decimal(process));
    assert(key_for(run_id, index) =~= run_id + ":"@ + decimal(index));
}

} // verus!
