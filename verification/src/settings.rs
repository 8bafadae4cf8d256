//! Settings that are kept in a file: one in each line, its name and its value
//! with an equals sign between them.

use crate::text::{chars_of, opt_view, same_text, trim_text, trimmed};
use vstd::prelude::*;

verus! {

/// The first position of a character in a text, or the end of the text.
pub open spec fn position_of(text: Seq<char>, character: char) -> nat
    decreases text.len(),
{
    if text.len() == 0 || text[0] == character {
        0
    } else {
        1 + position_of(text.skip(1), character)
    }
}

/// The value that a line gives a setting, if it is about it. White space
/// around the name and the value does not count.
pub open spec fn line_value(line: Seq<char>, name: Seq<char>) -> Option<Seq<char>> {
    let at = position_of(line, '=') as int;
    if at < line.len() && trimmed(line.take(at)) == name {
        Some(trimmed(line.skip(at + 1)))
    } else {
        None
    }
}

/// The value of a setting in a text: the first line that is about it counts.
pub open spec fn value_in(text: Seq<char>, name: Seq<char>) -> Option<Seq<char>>
    decreases text.len(),
{
    let end = position_of(text, '\n') as int;
    if text.len() == 0 {
        None
    } else {
        match line_value(text.take(end), name) {
            Some(value) => Some(value),
            None => if end < text.len() {
                value_in(text.skip(end + 1), name)
            } else {
                None
            },
        }
    }
}

fn find_char(chars: &Vec<char>, character: char, from: usize, to: usize) -> (at: usize)
    requires
        from <= to <= chars@.len(),
    ensures
        from <= at <= to,
        at == from + position_of(chars@.subrange(from as int, to as int), character),
{
    let mut at: usize = from;
    while at < to && chars[at] != character
        invariant
            from <= at <= to <= chars@.len(),
            position_of(chars@.subrange(from as int, to as int), character) == (at - from)
                + position_of(chars@.subrange(at as int, to as int), character),
        decreases to - at,
    {
        proof {
            assert(chars@.subrange(at as int, to as int).skip(1) =~= chars@.subrange(
                at + 1,
                to as int,
            ));
        }
        at = at + 1;
    }
    at
}

fn read_line(chars: &Vec<char>, from: usize, to: usize, name: &str) -> (value: Option<String>)
    requires
        from <= to <= chars@.len(),
    ensures
        opt_view(value) == line_value(chars@.subrange(from as int, to as int), name@),
{
    let at = find_char(chars, '=', from, to);
    if at == to {
        return None;
    }
    proof {
        let line = chars@.subrange(from as int, to as int);
        assert(line.take(at - from) =~= chars@.subrange(from as int, at as int));
        assert(line.skip(at - from + 1) =~= chars@.subrange(at + 1, to as int));
    }
    if same_text(trim_text(chars, from, at).as_str(), name) {
        Some(trim_text(chars, at + 1, to))
    } else {
        None
    }
}

/// The value of a setting in a text.
pub fn find_setting(text: &str, name: &str) -> (value: Option<String>)
    ensures
        opt_view(value) == value_in(text@, name@),
{
    let chars = chars_of(text);
    let mut from: usize = 0;
    proof {
        assert(chars@.skip(0) =~= chars@);
    }
    while from < chars.len()
        invariant
            chars@ == text@,
            from <= chars@.len(),
            value_in(text@, name@) == value_in(chars@.skip(from as int), name@),
        decreases chars@.len() - from,
    {
        let count = chars.len();
        let end = find_char(&chars, '\n', from, count);
        proof {
            let rest = chars@.skip(from as int);
            assert(rest =~= chars@.subrange(from as int, count as int));
            assert(rest.take(end - from) =~= chars@.subrange(from as int, end as int));
        }
        let value = read_line(&chars, from, end, name);
        if value.is_some() || end == count {
            return value;
        }
        proof {
            let rest = chars@.skip(from as int);
            assert(rest.skip(end - from + 1) =~= chars@.skip(end + 1));
        }
        from = end + 1;
    }
    None
}

/// A setting that is written in a line of its own is read back, whatever lines
/// come behind it.
pub proof fn written_settings_read_back(name: Seq<char>, value: Seq<char>, rest: Seq<char>)
    requires
        trimmed(name) == name,
        trimmed(value) == value,
        !name.contains('='),
        !name.contains('\n'),
        !value.contains('\n'),
    ensures
        value_in(name.push('=') + value.push('\n') + rest, name) == Some(value),
{
    let line = name.push('=') + value;
    let text = name.push('=') + value.push('\n') + rest;
    assert(text =~= line.push('\n') + rest);
    assert(!line.contains('\n')) by {
        if line.contains('\n') {
            let i = choose|i: int| 0 <= i < line.len() && line[i] == '\n';
            if i < name.len() {
                assert(name[i] == '\n');
            } else if i > name.len() {
                assert(value[i - name.len() - 1] == '\n');
            }
        }
    }
    lemma_first(line, '\n', rest);
    lemma_first(name, '=', value);
    assert(text.take(line.len() as int) =~= line);
    assert(line =~= name.push('=') + value);
    assert(line.take(name.len() as int) =~= name);
    assert(line.skip(name.len() as int + 1) =~= value);
}

proof fn lemma_first(front: Seq<char>, character: char, rest: Seq<char>)
    requires
        !front.contains(character),
    ensures
        position_of(front.push(character) + rest, character) == front.len(),
    decreases front.len(),
{
    let whole = front.push(character) + rest;
    if front.len() > 0 {
        assert(front[0] != character);
        let fewer = front.skip(1);
        assert(!fewer.contains(character)) by {
            if fewer.contains(character) {
                let i = choose|i: int| 0 <= i < fewer.len() && fewer[i] == character;
                assert(front[i + 1] == character);
            }
        }
        lemma_first(fewer, character, rest);
        assert(whole.skip(1) =~= fewer.push(character) + rest);
    }
}

proof fn lemma_absent(text: Seq<char>, character: char)
    requires
        !text.contains(character),
    ensures
        position_of(text, character) == text.len(),
    decreases text.len(),
{
    if text.len() > 0 {
        assert(text[0] != character);
        let rest = text.skip(1);
        assert(!rest.contains(character)) by {
            if rest.contains(character) {
                let i = choose|i: int| 0 <= i < rest.len() && rest[i] == character;
                assert(text[i + 1] == character);
            }
        }
        lemma_absent(rest, character);
    }
}

/// A line sets the name before its first equals sign to what stands behind it,
/// both without white space around them. A line without one sets nothing.
pub proof fn lines_set_one_name(line: Seq<char>, value: Seq<char>, name: Seq<char>)
    requires
        !line.contains('='),
    ensures
        line_value(line.push('=') + value, name) == if trimmed(line) == name {
            Some(trimmed(value))
        } else {
            None
        },
        line_value(line, name) is None,
{
    let whole = line.push('=') + value;
    lemma_first(line, '=', value);
    lemma_absent(line, '=');
    assert(whole.take(line.len() as int) =~= line);
    assert(whole.skip(line.len() as int + 1) =~= value);
}

/// What counts is the first line that sets a name; lines that do not are passed
/// over, and where none does there is no value.
pub proof fn first_lines_count(line: Seq<char>, rest: Seq<char>, name: Seq<char>)
    requires
        !line.contains('\n'),
    ensures
        value_in(line.push('\n') + rest, name) == match line_value(line, name) {
            Some(value) => Some(value),
            None => value_in(rest, name),
        },
        line.len() > 0 ==> value_in(line, name) == line_value(line, name),
        value_in(Seq::empty(), name) is None,
{
    let whole = line.push('\n') + rest;
    lemma_first(line, '\n', rest);
    lemma_absent(line, '\n');
    assert(whole.take(line.len() as int) =~= line);
    assert(whole.skip(line.len() as int + 1) =~= rest);
    assert(line.take(line.len() as int) =~= line);
}

} // verus!
