//! The text of a plan as a JSON value in which repeated members are kept, so
//! that a plan can be refused for them. Members that mean nothing to a plan are
//! skipped and not looked into.

use crate::json::{
    json_parse, lemma_array_view, lemma_object_view, parse_json, Json, JsonView,
};
use crate::members::{
    array_items, object_members, read_value_at, value_at, whole_array, whole_object,
};
use crate::text::{res_view, same_text, views};
use vstd::prelude::*;

verus! {

/// The name of the field that stands at a position of a plan written as a list.
pub open spec fn position_name(position: int) -> Seq<char> {
    if position == 0 {
        "version"@
    } else if position == 1 {
        "summary"@
    } else if position == 2 {
        "actions"@
    } else {
        ""@
    }
}

/// Elements with the names of their positions.
pub open spec fn named_items(items: Seq<Seq<char>>) -> Seq<(Seq<char>, Seq<char>)> {
    Seq::new(items.len(), |i: int| (position_name(i), items[i]))
}

/// The values of members.
pub open spec fn member_values(members: Seq<(Seq<char>, JsonView)>) -> Seq<JsonView> {
    Seq::new(members.len(), |i: int| members[i].1)
}

/// The members of an action, put behind others; the first that cannot be read
/// refuses them all.
pub open spec fn parts_onto(
    done: Seq<(Seq<char>, JsonView)>,
    members: Seq<(Seq<char>, Seq<char>)>,
) -> Result<Seq<(Seq<char>, JsonView)>, Seq<char>>
    decreases members.len(),
{
    if members.len() == 0 {
        Ok(done)
    } else {
        match value_at(members[0].1, 3) {
            Err(message) => Err(message),
            Ok(json) => parts_onto(done.push((members[0].0, json)), members.skip(1)),
        }
    }
}

/// What was read of a text that is neither an object nor an array.
pub open spec fn other_json(read: Result<JsonView, Seq<char>>) -> Result<JsonView, Seq<char>> {
    match read {
        Ok(JsonView::Array(_)) => Err("a list cannot be read"@),
        Ok(JsonView::Object(_)) => Err("an object cannot be read"@),
        other => other,
    }
}

/// An action: an object or an array, each with its values.
pub open spec fn action_json(text: Seq<char>) -> Result<JsonView, Seq<char>> {
    match whole_object(text) {
        Some(members) => match parts_onto(Seq::empty(), members) {
            Ok(parts) => Ok(JsonView::Object(parts)),
            Err(message) => Err(message),
        },
        None => match whole_array(text) {
            Some(items) => match parts_onto(Seq::empty(), named_items(items)) {
                Ok(parts) => Ok(JsonView::Array(member_values(parts))),
                Err(message) => Err(message),
            },
            None => other_json(value_at(text, 2)),
        },
    }
}

/// The actions of a plan, put behind others.
pub open spec fn actions_onto(done: Seq<JsonView>, items: Seq<Seq<char>>) -> Result<
    Seq<JsonView>,
    Seq<char>,
>
    decreases items.len(),
{
    if items.len() == 0 {
        Ok(done)
    } else {
        match action_json(items[0]) {
            Err(message) => Err(message),
            Ok(json) => actions_onto(done.push(json), items.skip(1)),
        }
    }
}

/// The field of a plan that holds its actions.
pub open spec fn actions_json(text: Seq<char>) -> Result<JsonView, Seq<char>> {
    match whole_array(text) {
        Some(items) => match actions_onto(Seq::empty(), items) {
            Ok(actions) => Ok(JsonView::Array(actions)),
            Err(message) => Err(message),
        },
        None => other_json(value_at(text, 1)),
    }
}

/// A member of a plan. One that means nothing to a plan is skipped.
pub open spec fn field_json(name: Seq<char>, text: Seq<char>) -> Result<JsonView, Seq<char>> {
    if name == "actions"@ {
        actions_json(text)
    } else if name == "version"@ || name == "summary"@ {
        value_at(text, 1)
    } else {
        Ok(JsonView::Null)
    }
}

/// The members of a plan, put behind others.
pub open spec fn fields_onto(
    done: Seq<(Seq<char>, JsonView)>,
    members: Seq<(Seq<char>, Seq<char>)>,
) -> Result<Seq<(Seq<char>, JsonView)>, Seq<char>>
    decreases members.len(),
{
    if members.len() == 0 {
        Ok(done)
    } else {
        match field_json(members[0].0, members[0].1) {
            Err(message) => Err(message),
            Ok(json) => fields_onto(done.push((members[0].0, json)), members.skip(1)),
        }
    }
}

/// The JSON value that the text of a plan is, with its members as they are
/// written.
pub open spec fn plan_json(text: Seq<char>) -> Result<JsonView, Seq<char>> {
    match whole_object(text) {
        Some(members) => match fields_onto(Seq::empty(), members) {
            Ok(fields) => Ok(JsonView::Object(fields)),
            Err(message) => Err(message),
        },
        None => match whole_array(text) {
            Some(items) => match fields_onto(Seq::empty(), named_items(items)) {
                Ok(fields) => Ok(JsonView::Array(member_values(fields))),
                Err(message) => Err(message),
            },
            None => other_json(json_parse(text)),
        },
    }
}

fn name_items(items: Vec<String>) -> (named: Vec<(String, String)>)
    ensures
        views(named@) == named_items(views(items@)),
{
    let mut named: Vec<(String, String)> = Vec::new();
    let mut i: usize = 0;
    while i < items.len()
        invariant
            i <= items@.len(),
            named@.len() == i,
            forall|j: int|
                0 <= j < i ==> (#[trigger] named@[j])@ == named_items(views(items@))[j],
        decreases items@.len() - i,
    {
        let name = if i == 0 {
            "version"
        } else if i == 1 {
            "summary"
        } else if i == 2 {
            "actions"
        } else {
            ""
        };
        named.push((name.to_owned(), items[i].clone()));
        i = i + 1;
    }
    proof {
        assert(views(named@) =~= named_items(views(items@)));
    }
    named
}

fn object_of(members: Vec<(String, Json)>) -> (json: Json)
    ensures
        json@ == JsonView::Object(views(members@)),
{
    let json = Json::Object(members);
    proof {
        lemma_object_view(json);
        assert(json@->Object_0 =~= views(members@));
    }
    json
}

fn array_of(members: Vec<(String, Json)>) -> (json: Json)
    ensures
        json@ == JsonView::Array(member_values(views(members@))),
{
    let ghost all = views(members@);
    let mut values: Vec<Json> = Vec::new();
    for member in it: members
        invariant
            it.seq() == members@,
            all == views(members@),
            values@.len() == it.index(),
            forall|j: int| 0 <= j < it.index() ==> (#[trigger] values@[j])@ == all[j].1,
    {
        proof {
            assert(all[it.index()] == member@);
        }
        let (_, value) = member;
        values.push(value);
    }
    let json = Json::Array(values);
    proof {
        lemma_array_view(json);
        assert(json@->Array_0 =~= member_values(all));
    }
    json
}

fn read_parts(members: &Vec<(String, String)>) -> (result: Result<Vec<(String, Json)>, String>)
    ensures
        match result {
            Ok(read) => parts_onto(Seq::empty(), views(members@)) == Ok::<
                Seq<(Seq<char>, JsonView)>,
                Seq<char>,
            >(views(read@)),
            Err(message) => parts_onto(Seq::empty(), views(members@)) == Err::<
                Seq<(Seq<char>, JsonView)>,
                Seq<char>,
            >(message@),
        },
{
    let ghost all = views(members@);
    let mut read: Vec<(String, Json)> = Vec::new();
    let mut i: usize = 0;
    proof {
        assert(views(read@) =~= Seq::<(Seq<char>, JsonView)>::empty());
        assert(all.skip(0) =~= all);
    }
    while i < members.len()
        invariant
            all == views(members@),
            i <= members@.len(),
            parts_onto(Seq::empty(), all) == parts_onto(views(read@), all.skip(i as int)),
        decreases members@.len() - i,
    {
        let ghost before = views(read@);
        proof {
            assert(all.skip(i as int)[0] == members@[i as int]@);
            assert(all.skip(i as int).skip(1) =~= all.skip(i + 1));
        }
        match read_value_at(members[i].1.as_str(), 3) {
            Err(message) => return Err(message),
            Ok(json) => {
                let member = (members[i].0.clone(), json);
                read.push(member);
                proof {
                    assert(views(read@) =~= before.push(member@));
                }
            },
        }
        i = i + 1;
    }
    Ok(read)
}

fn refuse_containers(read: Result<Json, String>) -> (result: Result<Json, String>)
    ensures
        res_view(result) == other_json(res_view(read)),
{
    match read {
        Ok(Json::Array(_)) => Err("a list cannot be read".to_owned()),
        Ok(Json::Object(_)) => Err("an object cannot be read".to_owned()),
        Ok(json) => Ok(json),
        Err(message) => Err(message),
    }
}

fn read_action(text: &str) -> (result: Result<Json, String>)
    ensures
        res_view(result) == action_json(text@),
{
    match object_members(text) {
        Some(members) => match read_parts(&members) {
            Ok(parts) => Ok(object_of(parts)),
            Err(message) => Err(message),
        },
        None => match array_items(text) {
            Some(items) => match read_parts(&name_items(items)) {
                Ok(parts) => Ok(array_of(parts)),
                Err(message) => Err(message),
            },
            None => refuse_containers(read_value_at(text, 2)),
        },
    }
}

fn read_actions(text: &str) -> (result: Result<Json, String>)
    ensures
        res_view(result) == actions_json(text@),
{
    let items = match array_items(text) {
        Some(items) => items,
        None => return refuse_containers(read_value_at(text, 1)),
    };
    let ghost all = views(items@);
    let mut actions: Vec<Json> = Vec::new();
    let mut i: usize = 0;
    proof {
        assert(views(actions@) =~= Seq::<JsonView>::empty());
        assert(all.skip(0) =~= all);
    }
    while i < items.len()
        invariant
            all == views(items@),
            whole_array(text@) == Some(all),
            i <= items@.len(),
            actions_onto(Seq::empty(), all) == actions_onto(views(actions@), all.skip(i as int)),
        decreases items@.len() - i,
    {
        let ghost before = views(actions@);
        proof {
            assert(all.skip(i as int)[0] == items@[i as int]@);
            assert(all.skip(i as int).skip(1) =~= all.skip(i + 1));
        }
        match read_action(items[i].as_str()) {
            Err(message) => return Err(message),
            Ok(action) => {
                actions.push(action);
                proof {
                    assert(views(actions@) =~= before.push(action@));
                }
            },
        }
        i = i + 1;
    }
    let ghost read = views(actions@);
    let json = Json::Array(actions);
    proof {
        lemma_array_view(json);
        assert(json@->Array_0 =~= read);
    }
    Ok(json)
}

fn read_field(name: &str, text: &str) -> (result: Result<Json, String>)
    ensures
        res_view(result) == field_json(name@, text@),
{
    if same_text(name, "actions") {
        read_actions(text)
    } else if same_text(name, "version") || same_text(name, "summary") {
        read_value_at(text, 1)
    } else {
        Ok(Json::Null)
    }
}

fn read_fields(members: &Vec<(String, String)>) -> (result: Result<Vec<(String, Json)>, String>)
    ensures
        match result {
            Ok(read) => fields_onto(Seq::empty(), views(members@)) == Ok::<
                Seq<(Seq<char>, JsonView)>,
                Seq<char>,
            >(views(read@)),
            Err(message) => fields_onto(Seq::empty(), views(members@)) == Err::<
                Seq<(Seq<char>, JsonView)>,
                Seq<char>,
            >(message@),
        },
{
    let ghost all = views(members@);
    let mut read: Vec<(String, Json)> = Vec::new();
    let mut i: usize = 0;
    proof {
        assert(views(read@) =~= Seq::<(Seq<char>, JsonView)>::empty());
        assert(all.skip(0) =~= all);
    }
    while i < members.len()
        invariant
            all == views(members@),
            i <= members@.len(),
            fields_onto(Seq::empty(), all) == fields_onto(views(read@), all.skip(i as int)),
        decreases members@.len() - i,
    {
        let ghost before = views(read@);
        proof {
            assert(all.skip(i as int)[0] == members@[i as int]@);
            assert(all.skip(i as int).skip(1) =~= all.skip(i + 1));
        }
        match read_field(members[i].0.as_str(), members[i].1.as_str()) {
            Err(message) => return Err(message),
            Ok(json) => {
                let member = (members[i].0.clone(), json);
                read.push(member);
                proof {
                    assert(views(read@) =~= before.push(member@));
                }
            },
        }
        i = i + 1;
    }
    Ok(read)
}

/// Reads the text of a plan with its members as they are written.
pub fn read_plan_text(text: &str) -> (result: Result<Json, String>)
    ensures
        res_view(result) == plan_json(text@),
{
    match object_members(text) {
        Some(members) => match read_fields(&members) {
            Ok(fields) => Ok(object_of(fields)),
            Err(message) => Err(message),
        },
        None => match array_items(text) {
            Some(items) => match read_fields(&name_items(items)) {
                Ok(fields) => Ok(array_of(fields)),
                Err(message) => Err(message),
            },
            None => refuse_containers(parse_json(text)),
        },
    }
}

// Laws

proof fn lemma_fields(
    done: Seq<(Seq<char>, JsonView)>,
    members: Seq<(Seq<char>, Seq<char>)>,
    fields: Seq<(Seq<char>, JsonView)>,
)
    ensures
        fields_onto(done, members) == Ok::<Seq<(Seq<char>, JsonView)>, Seq<char>>(done + fields)
            <==> fields.len() == members.len() && forall|i: int|
            0 <= i < members.len() ==> (#[trigger] fields[i]).0 == members[i].0 && field_json(
                members[i].0,
                members[i].1,
            ) == Ok::<JsonView, Seq<char>>(fields[i].1),
        fields_onto(done, members) matches Ok(all) ==> all.len() == done.len() + members.len()
            && all.take(done.len() as int) == done,
    decreases members.len(),
{
    if members.len() == 0 {
        assert(done.take(done.len() as int) =~= done);
        if fields.len() == 0 {
            assert(done + fields =~= done);
        } else {
            assert((done + fields).len() > done.len());
        }
    } else {
        let rest = members.skip(1);
        assert forall|i: int| 0 <= i < rest.len() implies #[trigger] rest[i] == members[i + 1] by {}
        if let Ok(json) = field_json(members[0].0, members[0].1) {
            let first = (members[0].0, json);
            let more = done.push(first);
            let later = fields.skip(1);
            lemma_fields(more, rest, later);
            if let Ok(all) = fields_onto(done, members) {
                assert(all.take(done.len() as int) =~= more.subrange(0, done.len() as int)) by {
                    assert(all.take(more.len() as int) == more);
                    assert forall|i: int| 0 <= i < done.len() implies all[i] == more[i] by {
                        assert(all.take(more.len() as int)[i] == all[i]);
                    }
                }
                assert(more.subrange(0, done.len() as int) =~= done);
                if all == done + fields {
                    assert(fields.len() == members.len());
                    assert(fields[0] == first) by {
                        assert(all.take(more.len() as int)[done.len() as int] == first);
                        assert((done + fields)[done.len() as int] == fields[0]);
                    }
                    assert(more + later =~= done + fields);
                    assert forall|i: int| 0 <= i < members.len() implies (
                    #[trigger] fields[i]).0 == members[i].0 && field_json(
                        members[i].0,
                        members[i].1,
                    ) == Ok::<JsonView, Seq<char>>(fields[i].1) by {
                        if i > 0 {
                            assert(later[i - 1] == fields[i]);
                            assert(rest[i - 1] == members[i]);
                        }
                    }
                }
            }
            if fields.len() == members.len() && (forall|i: int|
                0 <= i < members.len() ==> (#[trigger] fields[i]).0 == members[i].0 && field_json(
                    members[i].0,
                    members[i].1,
                ) == Ok::<JsonView, Seq<char>>(fields[i].1)) {
                assert(fields[0] == first);
                assert forall|i: int| 0 <= i < rest.len() implies (#[trigger] later[i]).0
                    == rest[i].0 && field_json(rest[i].0, rest[i].1) == Ok::<JsonView, Seq<char>>(
                    later[i].1,
                ) by {
                    assert(later[i] == fields[i + 1]);
                }
                assert(more + later =~= done + fields);
            }
        } else if fields.len() == members.len() && (forall|i: int|
            0 <= i < members.len() ==> (#[trigger] fields[i]).0 == members[i].0 && field_json(
                members[i].0,
                members[i].1,
            ) == Ok::<JsonView, Seq<char>>(fields[i].1)) {
            assert(fields[0].0 == members[0].0);
        }
    }
}

/// What the text of a plan is read as, from an object: each of its members under
/// its key, in their order. The actions are read as such, the version and the
/// summary as values, and what has another key is passed over.
pub proof fn plan_texts_are_read_member_by_member(
    text: Seq<char>,
    members: Seq<(Seq<char>, Seq<char>)>,
    fields: Seq<(Seq<char>, JsonView)>,
)
    requires
        whole_object(text) == Some(members),
    ensures
        plan_json(text) == Ok::<JsonView, Seq<char>>(JsonView::Object(fields)) <==> fields.len()
            == members.len() && forall|i: int|
            0 <= i < members.len() ==> (#[trigger] fields[i]).0 == members[i].0 && field_json(
                members[i].0,
                members[i].1,
            ) == Ok::<JsonView, Seq<char>>(fields[i].1),
        plan_json(text) matches Ok(json) ==> json is Object,
        forall|name: Seq<char>, value: Seq<char>|
            #[trigger] field_json(name, value) == if name == "actions"@ {
                actions_json(value)
            } else if name == "version"@ || name == "summary"@ {
                value_at(value, 1)
            } else {
                Ok(JsonView::Null)
            },
{
    let none = Seq::<(Seq<char>, JsonView)>::empty();
    lemma_fields(none, members, fields);
    assert(none + fields =~= fields);
}

proof fn lemma_actions(done: Seq<JsonView>, items: Seq<Seq<char>>, actions: Seq<JsonView>)
    ensures
        actions_onto(done, items) == Ok::<Seq<JsonView>, Seq<char>>(done + actions)
            <==> actions.len() == items.len() && forall|i: int|
            0 <= i < items.len() ==> #[trigger] action_json(items[i]) == Ok::<JsonView, Seq<char>>(
                actions[i],
            ),
        actions_onto(done, items) matches Ok(all) ==> all.len() == done.len() + items.len()
            && all.take(done.len() as int) == done,
    decreases items.len(),
{
    if items.len() == 0 {
        assert(done.take(done.len() as int) =~= done);
        if actions.len() == 0 {
            assert(done + actions =~= done);
        } else {
            assert((done + actions).len() > done.len());
        }
    } else {
        let rest = items.skip(1);
        assert forall|i: int| 0 <= i < rest.len() implies #[trigger] rest[i] == items[i + 1] by {}
        if let Ok(json) = action_json(items[0]) {
            let more = done.push(json);
            let later = actions.skip(1);
            lemma_actions(more, rest, later);
            if let Ok(all) = actions_onto(done, items) {
                assert(all.take(done.len() as int) =~= done) by {
                    assert forall|i: int| 0 <= i < done.len() implies all[i] == done[i] by {
                        assert(all.take(more.len() as int)[i] == more[i]);
                    }
                }
                if all == done + actions {
                    assert(actions.len() == items.len());
                    assert(actions[0] == json) by {
                        assert(all.take(more.len() as int)[done.len() as int] == json);
                        assert((done + actions)[done.len() as int] == actions[0]);
                    }
                    assert(more + later =~= done + actions);
                    assert forall|i: int| 0 <= i < items.len() implies #[trigger] action_json(
                        items[i],
                    ) == Ok::<JsonView, Seq<char>>(actions[i]) by {
                        if i > 0 {
                            assert(rest[i - 1] == items[i]);
                            assert(action_json(rest[i - 1]) == Ok::<JsonView, Seq<char>>(
                                later[i - 1],
                            ));
                        }
                    }
                }
            }
            if actions.len() == items.len() && (forall|i: int|
                0 <= i < items.len() ==> #[trigger] action_json(items[i]) == Ok::<
                    JsonView,
                    Seq<char>,
                >(actions[i])) {
                assert(action_json(items[0]) == Ok::<JsonView, Seq<char>>(actions[0]));
                assert forall|i: int| 0 <= i < rest.len() implies #[trigger] action_json(rest[i])
                    == Ok::<JsonView, Seq<char>>(later[i]) by {
                    assert(action_json(items[i + 1]) == Ok::<JsonView, Seq<char>>(
                        actions[i + 1],
                    ));
                }
                assert(more + later =~= done + actions);
            }
        } else if actions.len() == items.len() {
            assert(action_json(items[0]) is Err);
        }
    }
}

/// What the actions of a plan are read as, from a list: every item in its place.
pub proof fn plan_actions_are_read_one_by_one(
    text: Seq<char>,
    items: Seq<Seq<char>>,
    actions: Seq<JsonView>,
)
    requires
        whole_array(text) == Some(items),
    ensures
        actions_json(text) == Ok::<JsonView, Seq<char>>(JsonView::Array(actions)) <==> actions.len()
            == items.len() && forall|i: int|
            0 <= i < items.len() ==> #[trigger] action_json(items[i]) == Ok::<JsonView, Seq<char>>(
                actions[i],
            ),
        actions_json(text) matches Ok(json) ==> json is Array,
{
    let none = Seq::<JsonView>::empty();
    lemma_actions(none, items, actions);
    assert(none + actions =~= actions);
}

proof fn lemma_parts(
    done: Seq<(Seq<char>, JsonView)>,
    members: Seq<(Seq<char>, Seq<char>)>,
    i: int,
)
    requires
        parts_onto(done, members) is Ok,
    ensures
        ({
            let all = parts_onto(done, members)->Ok_0;
            &&& all.len() == done.len() + members.len()
            &&& 0 <= i < done.len() ==> all[i] == done[i]
            &&& 0 <= i < members.len() ==> all[done.len() + i].0 == members[i].0 && value_at(
                members[i].1,
                3,
            ) == Ok::<JsonView, Seq<char>>(all[done.len() + i].1)
        }),
    decreases members.len(),
{
    if members.len() > 0 {
        let json = value_at(members[0].1, 3)->Ok_0;
        let more = done.push((members[0].0, json));
        let rest = members.skip(1);
        lemma_parts(more, rest, i - 1);
        lemma_parts(more, rest, i);
        lemma_parts(more, rest, done.len() as int);
        if 0 < i < members.len() {
            assert(rest[i - 1] == members[i]);
        }
    }
}

/// What an action is read as, from an object: each of its members under its key,
/// in their order.
pub proof fn action_texts_are_read_member_by_member(
    text: Seq<char>,
    members: Seq<(Seq<char>, Seq<char>)>,
    i: int,
)
    requires
        whole_object(text) == Some(members),
        action_json(text) is Ok,
        0 <= i < members.len(),
    ensures
        action_json(text)->Ok_0 matches JsonView::Object(parts) && parts.len() == members.len()
            && parts[i].0 == members[i].0 && value_at(members[i].1, 3) == Ok::<
            JsonView,
            Seq<char>,
        >(parts[i].1),
{
    lemma_parts(Seq::empty(), members, i);
}

/// What the text of a plan is read as, from a list: every item in its place, the
/// first as the version, the second as the summary and the third as the actions.
/// What comes behind them is passed over.
pub proof fn plan_texts_are_read_by_their_place(
    text: Seq<char>,
    items: Seq<Seq<char>>,
    i: int,
)
    requires
        whole_object(text) is None,
        whole_array(text) == Some(items),
        plan_json(text) is Ok,
        0 <= i < items.len(),
    ensures
        plan_json(text)->Ok_0 matches JsonView::Array(values) && values.len() == items.len() && (
        if i == 0 || i == 1 {
            value_at(items[i], 1) == Ok::<JsonView, Seq<char>>(values[i])
        } else if i == 2 {
            actions_json(items[i]) == Ok::<JsonView, Seq<char>>(values[i])
        } else {
            values[i] is Null
        }),
{
    let members = named_items(items);
    let none = Seq::<(Seq<char>, JsonView)>::empty();
    let fields = fields_onto(none, members)->Ok_0;
    lemma_fields(none, members, fields);
    assert(none + fields =~= fields);
    assert(fields[i].0 == members[i].0);
    reveal_strlit("version");
    reveal_strlit("summary");
    reveal_strlit("actions");
    reveal_strlit("");
    assert("version"@[0] == 'v' && "summary"@[0] == 's' && "actions"@[0] == 'a');
    assert(""@.len() == 0);
}

/// What an action is read as, from a list: every item in its place.
pub proof fn action_texts_are_read_by_their_place(
    text: Seq<char>,
    items: Seq<Seq<char>>,
    i: int,
)
    requires
        whole_object(text) is None,
        whole_array(text) == Some(items),
        action_json(text) is Ok,
        0 <= i < items.len(),
    ensures
        action_json(text)->Ok_0 matches JsonView::Array(values) && values.len() == items.len()
            && value_at(items[i], 3) == Ok::<JsonView, Seq<char>>(values[i]),
{
    lemma_parts(Seq::empty(), named_items(items), i);
}

} // verus!
