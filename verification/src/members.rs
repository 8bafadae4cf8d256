//! JSON objects and arrays as they are written: the members in their order,
//! repeated ones too, each with the text of its value.

use crate::json::{json_parse, parse_json, split_value, value_prefix, Json, JsonView};
use crate::text::{chars_of, opt_view, res_view, text_of, views};
use vstd::prelude::*;
use vstd::string::StringExecFns;

verus! {

// Punctuation

/// The characters that may stand between the parts of a JSON text.
pub open spec fn is_json_space(character: char) -> bool {
    character == ' ' || character == '\n' || character == '\t' || character == '\r'
}

/// A text without the space at its beginning.
pub open spec fn after_space(text: Seq<char>) -> Seq<char>
    decreases text.len(),
{
    if text.len() > 0 && is_json_space(text[0]) {
        after_space(text.skip(1))
    } else {
        text
    }
}

/// What comes behind a character at the beginning of a text, space apart.
pub open spec fn behind(text: Seq<char>, character: char) -> Option<Seq<char>> {
    let rest = after_space(text);
    if rest.len() > 0 && rest[0] == character {
        Some(rest.skip(1))
    } else {
        None
    }
}

/// The value that a text begins with, and what comes behind it.
pub open spec fn value_split(text: Seq<char>) -> Option<(Seq<char>, Seq<char>)> {
    match value_prefix(text) {
        Some(value) => if 0 < value.len() <= text.len() {
            Some((value, text.skip(value.len() as int)))
        } else {
            None
        },
        None => None,
    }
}

/// The member that a text begins with, as its name and the text of its value,
/// and what comes behind it.
pub open spec fn member_split(text: Seq<char>) -> Option<((Seq<char>, Seq<char>), Seq<char>)> {
    let start = after_space(text);
    if start.len() == 0 || start[0] != '"' {
        None
    } else {
        match value_split(start) {
            None => None,
            Some((key, rest)) => match (json_parse(key), behind(rest, ':')) {
                (Ok(JsonView::Text(name)), Some(told)) => match value_split(told) {
                    Some((value, more)) => Some(((name, value), more)),
                    None => None,
                },
                _ => None,
            },
        }
    }
}

/// Leaving out space makes a text no longer.
pub proof fn lemma_after_space(text: Seq<char>)
    ensures
        after_space(text).len() <= text.len(),
    decreases text.len(),
{
    if text.len() > 0 && is_json_space(text[0]) {
        lemma_after_space(text.skip(1));
    }
}

/// What comes behind a character is shorter.
pub proof fn lemma_behind(text: Seq<char>, character: char)
    ensures
        behind(text, character) matches Some(rest) ==> rest.len() < text.len(),
{
    lemma_after_space(text);
}

/// What comes behind a member is shorter.
pub proof fn lemma_member_split(text: Seq<char>)
    ensures
        member_split(text) matches Some((_, rest)) ==> rest.len() < text.len(),
{
    lemma_after_space(text);
    if member_split(text) is Some {
        let split = value_split(after_space(text))->0;
        lemma_behind(split.1, ':');
    }
}

/// The members of an object from one of them on, put behind others, and what
/// comes behind the object.
pub open spec fn members_onto(done: Seq<(Seq<char>, Seq<char>)>, text: Seq<char>) -> Option<
    (Seq<(Seq<char>, Seq<char>)>, Seq<char>),
>
    decreases text.len(),
{
    match member_split(text) {
        None => None,
        Some((member, rest)) => match behind(rest, ',') {
            Some(more) => {
                proof {
                    lemma_member_split(text);
                    lemma_behind(rest, ',');
                }
                members_onto(done.push(member), more)
            },
            None => match behind(rest, '}') {
                Some(end) => Some((done.push(member), end)),
                None => None,
            },
        },
    }
}

/// The elements of an array from one of them on, put behind others, and what
/// comes behind the array.
pub open spec fn items_onto(done: Seq<Seq<char>>, text: Seq<char>) -> Option<
    (Seq<Seq<char>>, Seq<char>),
>
    decreases text.len(),
{
    match value_split(text) {
        None => None,
        Some((item, rest)) => match behind(rest, ',') {
            Some(more) => {
                proof {
                    lemma_behind(rest, ',');
                }
                items_onto(done.push(item), more)
            },
            None => match behind(rest, ']') {
                Some(end) => Some((done.push(item), end)),
                None => None,
            },
        },
    }
}

/// The members of the object that a text is: their names and the texts of their
/// values, as they are written.
pub open spec fn whole_object(text: Seq<char>) -> Option<Seq<(Seq<char>, Seq<char>)>> {
    match behind(text, '{') {
        None => None,
        Some(inner) => match (
            match behind(inner, '}') {
                Some(end) => Some((Seq::empty(), end)),
                None => members_onto(Seq::empty(), inner),
            }
        ) {
            Some((members, end)) => if after_space(end).len() == 0 {
                Some(members)
            } else {
                None
            },
            None => None,
        },
    }
}

/// The texts of the elements of the array that a text is.
pub open spec fn whole_array(text: Seq<char>) -> Option<Seq<Seq<char>>> {
    match behind(text, '[') {
        None => None,
        Some(inner) => match (
            match behind(inner, ']') {
                Some(end) => Some((Seq::empty(), end)),
                None => items_onto(Seq::empty(), inner),
            }
        ) {
            Some((items, end)) => if after_space(end).len() == 0 {
                Some(items)
            } else {
                None
            },
            None => None,
        },
    }
}

fn json_space(character: char) -> (space: bool)
    ensures
        space == is_json_space(character),
{
    character == ' ' || character == '\n' || character == '\t' || character == '\r'
}

fn skip_space(chars: &Vec<char>) -> (at: usize)
    ensures
        at <= chars@.len(),
        after_space(chars@) == chars@.skip(at as int),
        at < chars@.len() ==> !is_json_space(chars@[at as int]),
{
    let mut at: usize = 0;
    proof {
        assert(chars@.skip(0) =~= chars@);
    }
    while at < chars.len() && json_space(chars[at])
        invariant
            at <= chars@.len(),
            after_space(chars@) == after_space(chars@.skip(at as int)),
        decreases chars@.len() - at,
    {
        proof {
            assert(chars@.skip(at as int).skip(1) =~= chars@.skip(at + 1));
        }
        at = at + 1;
    }
    at
}

fn is_space(text: &str) -> (space: bool)
    ensures
        space == (after_space(text@).len() == 0),
{
    let chars = chars_of(text);
    skip_space(&chars) == chars.len()
}

fn go_behind(text: &str, character: char) -> (rest: Option<String>)
    ensures
        opt_view(rest) == behind(text@, character),
{
    let chars = chars_of(text);
    let at = skip_space(&chars);
    if at < chars.len() && chars[at] == character {
        let rest = text_of(&chars, at + 1, chars.len());
        proof {
            assert(rest@ =~= after_space(text@).skip(1));
        }
        Some(rest)
    } else {
        None
    }
}

fn take_value(text: &str) -> (split: Option<(String, String)>)
    ensures
        opt_view(split) == value_split(text@),
{
    match split_value(text) {
        Some((value, rest)) => {
            proof {
                assert(text@.skip(value@.len() as int) =~= rest@);
            }
            Some((value, rest))
        },
        None => None,
    }
}

fn take_member(text: &str) -> (split: Option<((String, String), String)>)
    ensures
        opt_view(split) == member_split(text@),
{
    let chars = chars_of(text);
    let at = skip_space(&chars);
    if at == chars.len() || chars[at] != '"' {
        return None;
    }
    let start = text_of(&chars, at, chars.len());
    proof {
        assert(start@ =~= after_space(text@));
    }
    let (key, rest) = match take_value(start.as_str()) {
        None => return None,
        Some(split) => split,
    };
    let name = match parse_json(key.as_str()) {
        Ok(Json::Text(name)) => name,
        _ => return None,
    };
    let told = match go_behind(rest.as_str(), ':') {
        None => return None,
        Some(told) => told,
    };
    match take_value(told.as_str()) {
        None => None,
        Some((value, more)) => Some(((name, value), more)),
    }
}

fn take_members(text: &str) -> (taken: Option<(Vec<(String, String)>, String)>)
    ensures
        match taken {
            Some((members, end)) => members_onto(Seq::empty(), text@) == Some(
                (views(members@), end@),
            ),
            None => members_onto(Seq::empty(), text@) is None,
        },
{
    let mut members: Vec<(String, String)> = Vec::new();
    let mut rest = text.to_owned();
    proof {
        assert(views(members@) =~= Seq::<(Seq<char>, Seq<char>)>::empty());
    }
    loop
        invariant
            members_onto(Seq::empty(), text@) == members_onto(views(members@), rest@),
        decreases rest@.len(),
    {
        proof {
            lemma_member_split(rest@);
        }
        let (member, behind_member) = match take_member(rest.as_str()) {
            None => return None,
            Some(split) => split,
        };
        let ghost before = views(members@);
        members.push(member);
        proof {
            assert(views(members@) =~= before.push(member@));
            lemma_behind(behind_member@, ',');
        }
        match go_behind(behind_member.as_str(), ',') {
            Some(more) => {
                rest = more;
            },
            None => {
                return match go_behind(behind_member.as_str(), '}') {
                    Some(end) => Some((members, end)),
                    None => None,
                };
            },
        }
    }
}

fn take_items(text: &str) -> (taken: Option<(Vec<String>, String)>)
    ensures
        match taken {
            Some((items, end)) => items_onto(Seq::empty(), text@) == Some((views(items@), end@)),
            None => items_onto(Seq::empty(), text@) is None,
        },
{
    let mut items: Vec<String> = Vec::new();
    let mut rest = text.to_owned();
    proof {
        assert(views(items@) =~= Seq::<Seq<char>>::empty());
    }
    loop
        invariant
            items_onto(Seq::empty(), text@) == items_onto(views(items@), rest@),
        decreases rest@.len(),
    {
        let (item, behind_item) = match take_value(rest.as_str()) {
            None => return None,
            Some(split) => split,
        };
        let ghost before = views(items@);
        items.push(item);
        proof {
            assert(views(items@) =~= before.push(item@));
            lemma_behind(behind_item@, ',');
        }
        match go_behind(behind_item.as_str(), ',') {
            Some(more) => {
                rest = more;
            },
            None => {
                return match go_behind(behind_item.as_str(), ']') {
                    Some(end) => Some((items, end)),
                    None => None,
                };
            },
        }
    }
}

/// The members of the object that a text is.
pub fn object_members(text: &str) -> (members: Option<Vec<(String, String)>>)
    ensures
        match members {
            Some(members) => whole_object(text@) == Some(views(members@)),
            None => whole_object(text@) is None,
        },
{
    let inner = match go_behind(text, '{') {
        None => return None,
        Some(inner) => inner,
    };
    let (members, end) = match go_behind(inner.as_str(), '}') {
        Some(end) => {
            let none: Vec<(String, String)> = Vec::new();
            proof {
                assert(views(none@) =~= Seq::<(Seq<char>, Seq<char>)>::empty());
            }
            (none, end)
        },
        None => match take_members(inner.as_str()) {
            None => return None,
            Some(taken) => taken,
        },
    };
    if is_space(end.as_str()) {
        Some(members)
    } else {
        None
    }
}

/// The texts of the elements of the array that a text is.
pub fn array_items(text: &str) -> (items: Option<Vec<String>>)
    ensures
        match items {
            Some(items) => whole_array(text@) == Some(views(items@)),
            None => whole_array(text@) is None,
        },
{
    let inner = match go_behind(text, '[') {
        None => return None,
        Some(inner) => inner,
    };
    let (items, end) = match go_behind(inner.as_str(), ']') {
        Some(end) => {
            let none: Vec<String> = Vec::new();
            proof {
                assert(views(none@) =~= Seq::<Seq<char>>::empty());
            }
            (none, end)
        },
        None => match take_items(inner.as_str()) {
            None => return None,
            Some(taken) => taken,
        },
    };
    if is_space(end.as_str()) {
        Some(items)
    } else {
        None
    }
}

// Values at a depth

/// The text of a value in so many arrays of one element.
pub open spec fn nested_text(value: Seq<char>, depth: nat) -> Seq<char>
    decreases depth,
{
    if depth == 0 {
        value
    } else {
        "["@ + nested_text(value, (depth - 1) as nat) + "]"@
    }
}

/// The value in so many arrays of one element.
pub open spec fn unwrapped(json: JsonView, depth: nat) -> Option<JsonView>
    decreases depth,
{
    if depth == 0 {
        Some(json)
    } else {
        match json {
            JsonView::Array(items) => if items.len() == 1 {
                unwrapped(items[0], (depth - 1) as nat)
            } else {
                None
            },
            _ => None,
        }
    }
}

/// What a value reads as that stands at a depth of a larger one. Values that
/// are nested too deep are refused, counted from the larger one.
pub open spec fn value_at(value: Seq<char>, depth: nat) -> Result<JsonView, Seq<char>> {
    match json_parse(nested_text(value, depth)) {
        Err(message) => Err(message),
        Ok(json) => match unwrapped(json, depth) {
            Some(json) => Ok(json),
            None => Err("a value cannot be read"@),
        },
    }
}

/// Reads a value that stands at a depth of a larger one.
pub fn read_value_at(value: &str, depth: usize) -> (result: Result<Json, String>)
    ensures
        res_view(result) == value_at(value@, depth as nat),
{
    let mut text = value.to_owned();
    let mut i: usize = 0;
    while i < depth
        invariant
            i <= depth,
            text@ == nested_text(value@, i as nat),
        decreases depth - i,
    {
        let mut outer = "[".to_owned();
        outer.append(text.as_str());
        outer.append("]");
        text = outer;
        i = i + 1;
    }
    let mut json = match parse_json(text.as_str()) {
        Err(message) => return Err(message),
        Ok(json) => json,
    };
    let ghost whole = json@;
    let mut left: usize = depth;
    while left > 0
        invariant
            left <= depth,
            json_parse(nested_text(value@, depth as nat)) == Ok::<JsonView, Seq<char>>(whole),
            unwrapped(whole, depth as nat) == unwrapped(json@, left as nat),
        decreases left,
    {
        proof {
            if json is Array {
                crate::json::lemma_array_view(json);
            }
        }
        match json {
            Json::Array(mut items) => {
                if items.len() != 1 {
                    return Err("a value cannot be read".to_owned());
                }
                match items.pop() {
                    Some(item) => {
                        json = item;
                    },
                    None => return Err("a value cannot be read".to_owned()),
                }
            },
            _ => return Err("a value cannot be read".to_owned()),
        }
        left = left - 1;
    }
    Ok(json)
}

// Laws

/// Whether a text is made of JSON's spaces.
pub open spec fn all_space(text: Seq<char>) -> bool {
    forall|i: int|
        0 <= i < text.len() ==> #[trigger] text[i] == ' ' || text[i] == '\n' || text[i] == '\t'
            || text[i] == '\r'
}

/// Space before a value is passed over, all of it and nothing else.
pub proof fn space_is_passed_over(space: Seq<char>, text: Seq<char>)
    requires
        all_space(space),
        text.len() > 0 ==> !all_space(seq![text[0]]),
    ensures
        after_space(space + text) == text,
    decreases space.len(),
{
    if space.len() == 0 {
        assert(space + text =~= text);
        if text.len() > 0 {
            let first = seq![text[0]];
            assert(!is_json_space(text[0])) by {
                if is_json_space(text[0]) {
                    assert forall|i: int| 0 <= i < first.len() implies #[trigger] first[i] == ' '
                        || first[i] == '\n' || first[i] == '\t' || first[i] == '\r' by {}
                    assert(all_space(first));
                }
            }
        }
    } else {
        assert(space[0] == (space + text)[0]);
        let fewer = space.skip(1);
        assert forall|i: int| 0 <= i < fewer.len() implies #[trigger] fewer[i] == ' ' || fewer[i]
            == '\n' || fewer[i] == '\t' || fewer[i] == '\r' by {
            assert(fewer[i] == space[i + 1]);
        }
        space_is_passed_over(fewer, text);
        assert((space + text).skip(1) =~= fewer + text);
    }
}

/// What stands behind a mark that may have space before it. Where anything else
/// comes first, the mark is not there.
pub proof fn marks_may_have_space_before_them(
    space: Seq<char>,
    mark: char,
    other: char,
    rest: Seq<char>,
)
    requires
        all_space(space),
        !all_space(seq![mark]),
    ensures
        behind(space + seq![mark] + rest, mark) == Some(rest),
        other != mark ==> behind(space + seq![mark] + rest, other) is None,
        behind(space, mark) is None,
{
    let text = seq![mark] + rest;
    assert(text[0] == mark);
    space_is_passed_over(space, text);
    assert(space + seq![mark] + rest =~= space + text);
    assert(text.skip(1) =~= rest);
    space_is_passed_over(space, Seq::empty());
    assert(space + Seq::<char>::empty() =~= space);
}

proof fn lemma_members_onto(
    done: Seq<(Seq<char>, Seq<char>)>,
    text: Seq<char>,
)
    ensures
        match members_onto(Seq::empty(), text) {
            None => members_onto(done, text) is None,
            Some((members, end)) => members_onto(done, text) == Some((done + members, end)),
        },
    decreases text.len(),
{
    if let Some((member, rest)) = member_split(text) {
        let none = Seq::<(Seq<char>, Seq<char>)>::empty();
        if let Some(more) = behind(rest, ',') {
            lemma_member_split(text);
            lemma_behind(rest, ',');
            lemma_members_onto(done.push(member), more);
            lemma_members_onto(none.push(member), more);
            if let Some((members, end)) = members_onto(none, more) {
                assert(done + (none.push(member) + members) =~= done.push(member) + members);
            }
        } else {
            assert(done + none.push(member) =~= done.push(member));
        }
    }
}

/// The members of an object come one after the other: behind a comma the others
/// follow the first, behind a brace it is the last, and nothing else may come.
pub proof fn members_follow_each_other(text: Seq<char>)
    ensures
        ({
            let none = Seq::<(Seq<char>, Seq<char>)>::empty();
            match member_split(text) {
                None => members_onto(none, text) is None,
                Some((member, rest)) => match (behind(rest, ','), behind(rest, '}')) {
                    (Some(more), _) => match members_onto(none, more) {
                        None => members_onto(none, text) is None,
                        Some((members, end)) => members_onto(none, text) == Some(
                            (seq![member] + members, end),
                        ),
                    },
                    (None, Some(end)) => members_onto(none, text) == Some((seq![member], end)),
                    (None, None) => members_onto(none, text) is None,
                },
            }
        }),
{
    let none = Seq::<(Seq<char>, Seq<char>)>::empty();
    if let Some((member, rest)) = member_split(text) {
        assert(none.push(member) =~= seq![member]);
        if let Some(more) = behind(rest, ',') {
            lemma_members_onto(none.push(member), more);
        }
    }
}

proof fn lemma_items_onto(done: Seq<Seq<char>>, text: Seq<char>)
    ensures
        match items_onto(Seq::empty(), text) {
            None => items_onto(done, text) is None,
            Some((items, end)) => items_onto(done, text) == Some((done + items, end)),
        },
    decreases text.len(),
{
    if let Some((item, rest)) = value_split(text) {
        let none = Seq::<Seq<char>>::empty();
        if let Some(more) = behind(rest, ',') {
            lemma_behind(rest, ',');
            lemma_items_onto(done.push(item), more);
            lemma_items_onto(none.push(item), more);
            if let Some((items, end)) = items_onto(none, more) {
                assert(done + (none.push(item) + items) =~= done.push(item) + items);
            }
        } else {
            assert(done + none.push(item) =~= done.push(item));
        }
    }
}

/// The items of a list come one after the other: behind a comma the others follow
/// the first, behind a bracket it is the last, and nothing else may come.
pub proof fn items_follow_each_other(text: Seq<char>)
    ensures
        ({
            let none = Seq::<Seq<char>>::empty();
            match value_split(text) {
                None => items_onto(none, text) is None,
                Some((item, rest)) => match (behind(rest, ','), behind(rest, ']')) {
                    (Some(more), _) => match items_onto(none, more) {
                        None => items_onto(none, text) is None,
                        Some((items, end)) => items_onto(none, text) == Some(
                            (seq![item] + items, end),
                        ),
                    },
                    (None, Some(end)) => items_onto(none, text) == Some((seq![item], end)),
                    (None, None) => items_onto(none, text) is None,
                },
            }
        }),
{
    let none = Seq::<Seq<char>>::empty();
    if let Some((item, rest)) = value_split(text) {
        assert(none.push(item) =~= seq![item]);
        if let Some(more) = behind(rest, ',') {
            lemma_items_onto(none.push(item), more);
        }
    }
}

/// Whether nothing but space is left of a text.
proof fn lemma_only_space(text: Seq<char>)
    ensures
        after_space(text).len() == 0 <==> all_space(text),
    decreases text.len(),
{
    if text.len() > 0 {
        let rest = text.skip(1);
        if is_json_space(text[0]) {
            lemma_only_space(rest);
            if all_space(rest) {
                assert forall|i: int| 0 <= i < text.len() implies #[trigger] text[i] == ' '
                    || text[i] == '\n' || text[i] == '\t' || text[i] == '\r' by {
                    if i > 0 {
                        assert(text[i] == rest[i - 1]);
                    }
                }
            }
            if all_space(text) {
                assert forall|i: int| 0 <= i < rest.len() implies #[trigger] rest[i] == ' '
                    || rest[i] == '\n' || rest[i] == '\t' || rest[i] == '\r' by {
                    assert(rest[i] == text[i + 1]);
                }
            }
        } else if all_space(text) {
            assert(text[0] == ' ' || text[0] == '\n' || text[0] == '\t' || text[0] == '\r');
        }
    }
}

/// An object is braces with members or nothing between them, and a list is
/// brackets with items or nothing between them. Behind them nothing but space may
/// come.
pub proof fn objects_and_lists_are_whole(text: Seq<char>)
    ensures
        match behind(text, '{') {
            None => whole_object(text) is None,
            Some(inner) => match (behind(inner, '}'), members_onto(Seq::empty(), inner)) {
                (Some(end), _) => whole_object(text) == if all_space(end) {
                    Some(Seq::<(Seq<char>, Seq<char>)>::empty())
                } else {
                    None
                },
                (None, Some((members, end))) => whole_object(text) == if all_space(end) {
                    Some(members)
                } else {
                    None
                },
                (None, None) => whole_object(text) is None,
            },
        },
        match behind(text, '[') {
            None => whole_array(text) is None,
            Some(inner) => match (behind(inner, ']'), items_onto(Seq::empty(), inner)) {
                (Some(end), _) => whole_array(text) == if all_space(end) {
                    Some(Seq::<Seq<char>>::empty())
                } else {
                    None
                },
                (None, Some((items, end))) => whole_array(text) == if all_space(end) {
                    Some(items)
                } else {
                    None
                },
                (None, None) => whole_array(text) is None,
            },
        },
{
    if let Some(inner) = behind(text, '{') {
        if let Some(end) = behind(inner, '}') {
            lemma_only_space(end);
        } else if let Some((members, end)) = members_onto(Seq::empty(), inner) {
            lemma_only_space(end);
        }
    }
    if let Some(inner) = behind(text, '[') {
        if let Some(end) = behind(inner, ']') {
            lemma_only_space(end);
        } else if let Some((items, end)) = items_onto(Seq::empty(), inner) {
            lemma_only_space(end);
        }
    }
}

/// A value in nested lists.
pub open spec fn wrapped(json: JsonView, depth: nat) -> JsonView
    decreases depth,
{
    if depth == 0 {
        json
    } else {
        JsonView::Array(seq![wrapped(json, (depth - 1) as nat)])
    }
}

/// A value is read where it is nested: it is put in as many lists, and comes out
/// of as many as it was before.
pub proof fn nested_values_come_out_again(value: Seq<char>, depth: nat, json: JsonView)
    ensures
        nested_text(value, 0) == value,
        nested_text(value, depth + 1) == "["@ + nested_text(value, depth) + "]"@,
        unwrapped(wrapped(json, depth), depth) == Some(json),
        json_parse(nested_text(value, depth)) == Ok::<JsonView, Seq<char>>(wrapped(json, depth))
            ==> value_at(value, depth) == Ok::<JsonView, Seq<char>>(json),
        json_parse(nested_text(value, depth)) matches Err(message) ==> value_at(value, depth)
            == Err::<JsonView, Seq<char>>(message),
    decreases depth,
{
    if depth > 0 {
        nested_values_come_out_again(value, (depth - 1) as nat, json);
    }
}

} // verus!
