//! What an exported bundle tells of the run it came from.

use crate::audit::{
    escape, escaped, event_line, events_jsonl, index_json, quoted, run_json,
};
use crate::number::{
    all_digits, decimal, decimal_is_injective, hex, hex_is_injective, hex_pair, is_digit,
    lemma_decimal,
};
use crate::run::{status_name, status_name_reads_back};
use crate::store::{EventView, StoredRunView};
use crate::text::{is_control, lemma_split_first};
use vstd::prelude::*;

verus! {

proof fn lemma_cancel_front(front: Seq<char>, a: Seq<char>, b: Seq<char>)
    requires
        front + a == front + b,
    ensures
        a == b,
{
    assert(a =~= (front + a).skip(front.len() as int));
    assert(b =~= (front + b).skip(front.len() as int));
}

proof fn lemma_escape_begins(character: char)
    ensures
        escape(character).len() > 0,
        escape(character)[0] != '"',
        escape(character)[0] != '\n',
{
}

proof fn lemma_hex_pair_injective(a: u8, b: u8)
    requires
        hex_pair(a) == hex_pair(b),
    ensures
        a == b,
{
    let x = seq![a];
    let y = seq![b];
    assert(x.drop_last() =~= Seq::<u8>::empty());
    assert(y.drop_last() =~= Seq::<u8>::empty());
    reveal_with_fuel(hex, 2);
    assert(hex(x) =~= hex_pair(a));
    assert(hex(y) =~= hex_pair(b));
    hex_is_injective(x, y);
    assert(x[0] == y[0]);
}

/// Whether a character is written as four hexadecimal digits.
spec fn by_code(character: char) -> bool {
    is_control(character) && character != '\n' && character != '\r' && character != '\t'
}

proof fn lemma_escape_splits(a: char, x: Seq<char>, b: char, y: Seq<char>)
    requires
        escape(a) + x == escape(b) + y,
    ensures
        a == b,
        x == y,
{
    let left = escape(a) + x;
    let right = escape(b) + y;
    assert(left[0] == escape(a)[0]);
    assert(right[0] == escape(b)[0]);
    if escape(a)[0] == '\\' {
        assert(left[1] == escape(a)[1]);
        assert(right[1] == escape(b)[1]);
        if by_code(a) {
            assert(by_code(b));
            assert(left[4] == hex_pair(a as u8)[0]);
            assert(left[5] == hex_pair(a as u8)[1]);
            assert(right[4] == hex_pair(b as u8)[0]);
            assert(right[5] == hex_pair(b as u8)[1]);
            assert(hex_pair(a as u8) =~= hex_pair(b as u8));
            lemma_hex_pair_injective(a as u8, b as u8);
        }
    }
    lemma_cancel_front(escape(a), x, y);
}

proof fn lemma_escaped_splits(a: Seq<char>, x: Seq<char>, b: Seq<char>, y: Seq<char>)
    requires
        escaped(a) + (seq!['"'] + x) == escaped(b) + (seq!['"'] + y),
    ensures
        a == b,
        x == y,
    decreases a.len(),
{
    let left = escaped(a) + (seq!['"'] + x);
    let right = escaped(b) + (seq!['"'] + y);
    if a.len() == 0 && b.len() == 0 {
        assert(left =~= seq!['"'] + x);
        assert(right =~= seq!['"'] + y);
        lemma_cancel_front(seq!['"'], x, y);
        assert(a =~= b);
    } else if a.len() == 0 {
        lemma_escape_begins(b[0]);
        assert(left[0] == '"');
        assert(right[0] == escape(b[0])[0]);
    } else if b.len() == 0 {
        lemma_escape_begins(a[0]);
        assert(right[0] == '"');
        assert(left[0] == escape(a[0])[0]);
    } else {
        let rest_a = escaped(a.skip(1)) + (seq!['"'] + x);
        let rest_b = escaped(b.skip(1)) + (seq!['"'] + y);
        assert(left =~= escape(a[0]) + rest_a);
        assert(right =~= escape(b[0]) + rest_b);
        lemma_escape_splits(a[0], rest_a, b[0], rest_b);
        lemma_escaped_splits(a.skip(1), x, b.skip(1), y);
        assert(a =~= seq![a[0]] + a.skip(1));
        assert(b =~= seq![b[0]] + b.skip(1));
    }
}

proof fn lemma_quoted_splits(a: Seq<char>, x: Seq<char>, b: Seq<char>, y: Seq<char>)
    requires
        quoted(a) + x == quoted(b) + y,
    ensures
        a == b,
        x == y,
{
    let left = escaped(a) + (seq!['"'] + x);
    let right = escaped(b) + (seq!['"'] + y);
    assert(quoted(a) + x =~= seq!['"'] + left);
    assert(quoted(b) + y =~= seq!['"'] + right);
    lemma_cancel_front(seq!['"'], left, right);
    lemma_escaped_splits(a, x, b, y);
}

/// A text can be read back from its JSON string.
pub proof fn json_strings_are_distinct(a: Seq<char>, b: Seq<char>)
    requires
        quoted(a) == quoted(b),
    ensures
        a == b,
{
    assert(quoted(a) + Seq::<char>::empty() =~= quoted(a));
    assert(quoted(b) + Seq::<char>::empty() =~= quoted(b));
    lemma_quoted_splits(a, Seq::empty(), b, Seq::empty());
}

proof fn lemma_digits_lack(text: Seq<char>, character: char)
    requires
        all_digits(text),
        !is_digit(character),
    ensures
        !text.contains(character),
{
}

proof fn lemma_decimal_splits(a: nat, x: Seq<char>, b: nat, y: Seq<char>, separator: char)
    requires
        !is_digit(separator),
        decimal(a) + (seq![separator] + x) == decimal(b) + (seq![separator] + y),
    ensures
        a == b,
        x == y,
{
    lemma_decimal(a);
    lemma_decimal(b);
    lemma_digits_lack(decimal(a), separator);
    lemma_digits_lack(decimal(b), separator);
    assert(decimal(a) + (seq![separator] + x) =~= decimal(a).push(separator) + x);
    assert(decimal(b) + (seq![separator] + y) =~= decimal(b).push(separator) + y);
    lemma_split_first(decimal(a), x, decimal(b), y, separator);
    decimal_is_injective(a, b);
}

proof fn lemma_index_splits(a: Option<nat>, x: Seq<char>, b: Option<nat>, y: Seq<char>)
    requires
        index_json(a) + (seq![','] + x) == index_json(b) + (seq![','] + y),
    ensures
        a == b,
        x == y,
{
    reveal_strlit("null");
    assert("null"@ =~= seq!['n', 'u', 'l', 'l']);
    if a is Some {
        lemma_decimal(a->0);
        lemma_digits_lack(decimal(a->0), ',');
    }
    if b is Some {
        lemma_decimal(b->0);
        lemma_digits_lack(decimal(b->0), ',');
    }
    assert(!index_json(a).contains(','));
    assert(!index_json(b).contains(','));
    assert(index_json(a) + (seq![','] + x) =~= index_json(a).push(',') + x);
    assert(index_json(b) + (seq![','] + y) =~= index_json(b).push(',') + y);
    lemma_split_first(index_json(a), x, index_json(b), y, ',');
    if a is Some && b is Some {
        decimal_is_injective(a->0, b->0);
    } else if a is Some {
        assert(is_digit(decimal(a->0)[0]));
    } else if b is Some {
        assert(is_digit(decimal(b->0)[0]));
    }
}

spec fn after_payload(rest: Seq<char>) -> Seq<char> {
    "}\n"@ + rest
}

spec fn from_payload(event: EventView, rest: Seq<char>) -> Seq<char> {
    quoted(event.payload) + after_payload(rest)
}

spec fn from_index(event: EventView, rest: Seq<char>) -> Seq<char> {
    index_json(event.step_index) + (",\"payload\":"@ + from_payload(event, rest))
}

spec fn from_type(event: EventView, rest: Seq<char>) -> Seq<char> {
    quoted(event.event_type) + (",\"step_index\":"@ + from_index(event, rest))
}

spec fn from_sequence(event: EventView, rest: Seq<char>) -> Seq<char> {
    decimal(event.sequence) + (",\"type\":"@ + from_type(event, rest))
}

proof fn lemma_line_parts(event: EventView, rest: Seq<char>)
    ensures
        event_line(event) + rest == "{\"sequence\":"@ + from_sequence(event, rest),
{
    assert(event_line(event) + rest =~= "{\"sequence\":"@ + from_sequence(event, rest));
}

proof fn lemma_line_splits(a: EventView, x: Seq<char>, b: EventView, y: Seq<char>)
    requires
        event_line(a) + x == event_line(b) + y,
    ensures
        a == b,
        x == y,
{
    lemma_line_parts(a, x);
    lemma_line_parts(b, y);
    lemma_cancel_front("{\"sequence\":"@, from_sequence(a, x), from_sequence(b, y));
    reveal_strlit(",\"type\":");
    let typed = ",\"type\":"@;
    let typed_rest = typed.skip(1);
    assert(typed =~= seq![','] + typed_rest);
    assert(typed + from_type(a, x) =~= seq![','] + (typed_rest + from_type(a, x)));
    assert(typed + from_type(b, y) =~= seq![','] + (typed_rest + from_type(b, y)));
    lemma_decimal_splits(
        a.sequence,
        typed_rest + from_type(a, x),
        b.sequence,
        typed_rest + from_type(b, y),
        ',',
    );
    lemma_cancel_front(typed_rest, from_type(a, x), from_type(b, y));
    lemma_quoted_splits(
        a.event_type,
        ",\"step_index\":"@ + from_index(a, x),
        b.event_type,
        ",\"step_index\":"@ + from_index(b, y),
    );
    lemma_cancel_front(",\"step_index\":"@, from_index(a, x), from_index(b, y));
    reveal_strlit(",\"payload\":");
    let paid = ",\"payload\":"@;
    let paid_rest = paid.skip(1);
    assert(paid =~= seq![','] + paid_rest);
    assert(paid + from_payload(a, x) =~= seq![','] + (paid_rest + from_payload(a, x)));
    assert(paid + from_payload(b, y) =~= seq![','] + (paid_rest + from_payload(b, y)));
    lemma_index_splits(
        a.step_index,
        paid_rest + from_payload(a, x),
        b.step_index,
        paid_rest + from_payload(b, y),
    );
    lemma_cancel_front(paid_rest, from_payload(a, x), from_payload(b, y));
    lemma_quoted_splits(a.payload, after_payload(x), b.payload, after_payload(y));
    lemma_cancel_front("}\n"@, x, y);
}

proof fn lemma_first_line(events: Seq<EventView>)
    requires
        events.len() > 0,
    ensures
        events_jsonl(events) == event_line(events[0]) + events_jsonl(events.skip(1)),
    decreases events.len(),
{
    let rest = events.skip(1);
    if events.len() == 1 {
        assert(events.drop_last() =~= Seq::<EventView>::empty());
        assert(rest =~= Seq::<EventView>::empty());
        assert(events_jsonl(events) =~= event_line(events[0]) + events_jsonl(rest));
    } else {
        let front = events.drop_last();
        lemma_first_line(front);
        assert(front.skip(1) =~= rest.drop_last());
        assert(front[0] == events[0]);
        assert(rest.last() == events.last());
        assert(events_jsonl(events) =~= event_line(events[0]) + events_jsonl(rest));
    }
}

/// The events of a run can be read back from the exported event stream: two
/// runs with the same stream have the same events in the same order.
pub proof fn event_stream_determines_events(a: Seq<EventView>, b: Seq<EventView>)
    requires
        events_jsonl(a) == events_jsonl(b),
    ensures
        a == b,
    decreases a.len(),
{
    if a.len() == 0 && b.len() == 0 {
        assert(a =~= b);
    } else if a.len() == 0 {
        lemma_first_line(b);
        lemma_line_parts(b[0], events_jsonl(b.skip(1)));
        reveal_strlit("{\"sequence\":");
        assert("{\"sequence\":"@.len() > 0);
    } else if b.len() == 0 {
        lemma_first_line(a);
        lemma_line_parts(a[0], events_jsonl(a.skip(1)));
        reveal_strlit("{\"sequence\":");
        assert("{\"sequence\":"@.len() > 0);
    } else {
        lemma_first_line(a);
        lemma_first_line(b);
        lemma_line_splits(a[0], events_jsonl(a.skip(1)), b[0], events_jsonl(b.skip(1)));
        event_stream_determines_events(a.skip(1), b.skip(1));
        assert(a =~= seq![a[0]] + a.skip(1));
        assert(b =~= seq![b[0]] + b.skip(1));
    }
}

spec fn from_total(run: StoredRunView) -> Seq<char> {
    decimal(run.total_steps) + "\n}\n"@
}

spec fn from_current(run: StoredRunView) -> Seq<char> {
    decimal(run.current_step) + (",\n  \"total_steps\": "@ + from_total(run))
}

spec fn from_status(run: StoredRunView) -> Seq<char> {
    quoted(status_name(run.status)) + (",\n  \"current_step\": "@ + from_current(run))
}

spec fn from_id(run: StoredRunView) -> Seq<char> {
    quoted(run.run_id) + (",\n  \"status\": "@ + from_status(run))
}

proof fn lemma_run_parts(run: StoredRunView)
    ensures
        run_json(run) == "{\n  \"run_id\": "@ + from_id(run),
{
    assert(run_json(run) =~= "{\n  \"run_id\": "@ + from_id(run));
}

proof fn lemma_counts_split(a: StoredRunView, b: StoredRunView)
    requires
        from_current(a) == from_current(b),
    ensures
        a.current_step == b.current_step,
        a.total_steps == b.total_steps,
{
    reveal_strlit(",\n  \"total_steps\": ");
    let total = ",\n  \"total_steps\": "@;
    let total_rest = total.skip(1);
    assert(total =~= seq![','] + total_rest);
    assert(total + from_total(a) =~= seq![','] + (total_rest + from_total(a)));
    assert(total + from_total(b) =~= seq![','] + (total_rest + from_total(b)));
    lemma_decimal_splits(
        a.current_step,
        total_rest + from_total(a),
        b.current_step,
        total_rest + from_total(b),
        ',',
    );
    lemma_cancel_front(total_rest, from_total(a), from_total(b));
    reveal_strlit("\n}\n");
    assert("\n}\n"@ =~= seq!['\n'] + seq!['}', '\n']);
    lemma_decimal_splits(
        a.total_steps,
        seq!['}', '\n'],
        b.total_steps,
        seq!['}', '\n'],
        '\n',
    );
}

/// The metadata of a run can be read back from the exported file.
pub proof fn run_file_determines_run(a: StoredRunView, b: StoredRunView)
    requires
        run_json(a) == run_json(b),
    ensures
        a == b,
{
    lemma_run_parts(a);
    lemma_run_parts(b);
    lemma_cancel_front("{\n  \"run_id\": "@, from_id(a), from_id(b));
    lemma_quoted_splits(
        a.run_id,
        ",\n  \"status\": "@ + from_status(a),
        b.run_id,
        ",\n  \"status\": "@ + from_status(b),
    );
    lemma_cancel_front(",\n  \"status\": "@, from_status(a), from_status(b));
    lemma_quoted_splits(
        status_name(a.status),
        ",\n  \"current_step\": "@ + from_current(a),
        status_name(b.status),
        ",\n  \"current_step\": "@ + from_current(b),
    );
    status_name_reads_back(a.status);
    status_name_reads_back(b.status);
    lemma_cancel_front(",\n  \"current_step\": "@, from_current(a), from_current(b));
    lemma_counts_split(a, b);
}

// Lines

/// How many lines a text ends.
pub open spec fn line_ends(text: Seq<char>) -> nat
    decreases text.len(),
{
    if text.len() == 0 {
        0
    } else {
        line_ends(text.drop_last()) + if text.last() == '\n' {
            1nat
        } else {
            0nat
        }
    }
}

proof fn lemma_line_ends_joined(a: Seq<char>, b: Seq<char>)
    ensures
        line_ends(a + b) == line_ends(a) + line_ends(b),
    decreases b.len(),
{
    if b.len() == 0 {
        assert(a + b =~= a);
    } else {
        lemma_line_ends_joined(a, b.drop_last());
        assert((a + b).drop_last() =~= a + b.drop_last());
    }
}

proof fn lemma_no_line_ends(text: Seq<char>)
    requires
        !text.contains('\n'),
    ensures
        line_ends(text) == 0,
    decreases text.len(),
{
    if text.len() > 0 {
        let front = text.drop_last();
        assert(text[text.len() - 1] != '\n');
        assert forall|i: int| 0 <= i < front.len() implies front[i] != '\n' by {
            assert(text[i] == front[i]);
        }
        lemma_no_line_ends(front);
    }
}

proof fn lemma_escape_on_one_line(character: char)
    ensures
        !escape(character).contains('\n'),
{
    if by_code(character) {
        let pair = hex_pair(character as u8);
        assert(pair[0] != '\n' && pair[1] != '\n');
        let head = seq!['\\', 'u', '0', '0'];
        assert(!head.contains('\n'));
        assert forall|i: int| 0 <= i < escape(character).len() implies escape(character)[i]
            != '\n' by {
            if i < 4 {
                assert(escape(character)[i] == head[i]);
            } else {
                assert(escape(character)[i] == pair[i - 4]);
            }
        }
    }
}

proof fn lemma_escaped_on_one_line(text: Seq<char>)
    ensures
        !escaped(text).contains('\n'),
    decreases text.len(),
{
    if text.len() > 0 {
        lemma_escape_on_one_line(text[0]);
        lemma_escaped_on_one_line(text.skip(1));
        let first = escape(text[0]);
        let rest = escaped(text.skip(1));
        assert forall|i: int| 0 <= i < (first + rest).len() implies (first + rest)[i] != '\n' by {
            if i < first.len() {
                assert((first + rest)[i] == first[i]);
            } else {
                assert((first + rest)[i] == rest[i - first.len()]);
            }
        }
    }
}

/// A JSON string stays on one line.
pub proof fn json_strings_stay_on_one_line(text: Seq<char>)
    ensures
        line_ends(quoted(text)) == 0,
{
    lemma_escaped_on_one_line(text);
    let inner = escaped(text);
    assert(!seq!['"'].contains('\n'));
    lemma_no_line_ends(seq!['"']);
    lemma_no_line_ends(inner);
    lemma_line_ends_joined(seq!['"'], inner);
    lemma_line_ends_joined(seq!['"'] + inner, seq!['"']);
}

proof fn lemma_decimal_on_one_line(n: nat)
    ensures
        line_ends(decimal(n)) == 0,
{
    lemma_decimal(n);
    lemma_digits_lack(decimal(n), '\n');
    lemma_no_line_ends(decimal(n));
}

proof fn lemma_event_is_one_line(event: EventView)
    ensures
        line_ends(event_line(event)) == 1,
{
    let empty = Seq::<char>::empty();
    lemma_line_parts(event, empty);
    assert(event_line(event) + empty =~= event_line(event));
    reveal_strlit("{\"sequence\":");
    reveal_strlit(",\"type\":");
    reveal_strlit(",\"step_index\":");
    reveal_strlit(",\"payload\":");
    reveal_strlit("null");
    reveal_strlit("}\n");
    lemma_no_line_ends("{\"sequence\":"@);
    lemma_no_line_ends(",\"type\":"@);
    lemma_no_line_ends(",\"step_index\":"@);
    lemma_no_line_ends(",\"payload\":"@);
    lemma_no_line_ends("null"@);
    lemma_decimal_on_one_line(event.sequence);
    if event.step_index is Some {
        lemma_decimal_on_one_line(event.step_index->0);
    }
    json_strings_stay_on_one_line(event.event_type);
    json_strings_stay_on_one_line(event.payload);
    assert("}\n"@ + empty =~= "}\n"@);
    assert("}\n"@.drop_last() =~= seq!['}']);
    assert(!seq!['}'].contains('\n'));
    lemma_no_line_ends(seq!['}']);
    lemma_line_ends_joined("{\"sequence\":"@, from_sequence(event, empty));
    lemma_line_ends_joined(decimal(event.sequence), ",\"type\":"@ + from_type(event, empty));
    lemma_line_ends_joined(",\"type\":"@, from_type(event, empty));
    lemma_line_ends_joined(quoted(event.event_type), ",\"step_index\":"@ + from_index(event, empty));
    lemma_line_ends_joined(",\"step_index\":"@, from_index(event, empty));
    lemma_line_ends_joined(
        index_json(event.step_index),
        ",\"payload\":"@ + from_payload(event, empty),
    );
    lemma_line_ends_joined(",\"payload\":"@, from_payload(event, empty));
    lemma_line_ends_joined(quoted(event.payload), after_payload(empty));
}

/// The exported event stream has one line for each event.
pub proof fn event_stream_has_a_line_per_event(events: Seq<EventView>)
    ensures
        line_ends(events_jsonl(events)) == events.len(),
    decreases events.len(),
{
    if events.len() > 0 {
        event_stream_has_a_line_per_event(events.drop_last());
        lemma_event_is_one_line(events.last());
        lemma_line_ends_joined(events_jsonl(events.drop_last()), event_line(events.last()));
    }
}

} // verus!
