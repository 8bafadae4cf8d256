//! Text as sequences of characters: search, replacement, numbers and quoting.

use vstd::prelude::*;
use vstd::string::StringExecFns;

verus! {

/// The view of an optional value.
pub open spec fn opt_view<T: View>(value: Option<T>) -> Option<T::V> {
    match value {
        Some(inner) => Some(inner@),
        None => None,
    }
}

/// The view of a result, on both sides.
pub open spec fn res_view<T: View, E: View>(value: Result<T, E>) -> Result<T::V, E::V> {
    match value {
        Ok(inner) => Ok(inner@),
        Err(error) => Err(error@),
    }
}

/// The view of a result that carries nothing on success.
pub open spec fn unit_view<E: View>(value: Result<(), E>) -> Result<(), E::V> {
    match value {
        Ok(()) => Ok(()),
        Err(error) => Err(error@),
    }
}

/// The views of the elements of a sequence, in order.
pub open spec fn views<T: View>(items: Seq<T>) -> Seq<T::V> {
    Seq::new(items.len(), |i: int| items[i]@)
}

/// Appends one character, which is what `String::push` documents: the text
/// grows by that character at its end.
#[verifier::external_body]
pub(crate) fn push_char(text: &mut String, character: char)
    ensures
        final(text)@ == old(text)@.push(character),
{
    text.push(character)
}

/// The bytes of a text.
pub open spec fn text_bytes(text: Seq<char>) -> Seq<u8> {
    vstd::utf8::encode_utf8(text)
}

/// The size of a text in bytes.
pub open spec fn byte_size(text: Seq<char>) -> nat {
    text_bytes(text).len()
}

/// The size of a text in bytes.
pub fn text_size(text: &str) -> (size: usize)
    ensures
        size == byte_size(text@),
{
    text.as_bytes().len()
}

/// Whether two texts hold the same characters.
pub fn same_text(a: &str, b: &str) -> (same: bool)
    ensures
        same == (a@ == b@),
{
    a.to_owned() == b.to_owned()
}

/// The characters of a text.
pub fn chars_of(text: &str) -> (chars: Vec<char>)
    ensures
        chars@ == text@,
{
    let mut chars: Vec<char> = Vec::new();
    for c in it: text.chars()
        invariant
            it.seq() == text@,
            chars@ == text@.take(it.index()),
    {
        proof {
            assert(text@.take(it.index() + 1) == text@.take(it.index()).push(c));
        }
        chars.push(c);
    }
    proof {
        assert(text@.take(text@.len() as int) == text@);
    }
    chars
}

/// The text made of the characters `from .. to`.
pub fn text_of(chars: &Vec<char>, from: usize, to: usize) -> (text: String)
    requires
        from <= to <= chars@.len(),
    ensures
        text@ == chars@.subrange(from as int, to as int),
{
    let mut text = String::new();
    let mut i: usize = from;
    while i < to
        invariant
            from <= i <= to <= chars@.len(),
            text@ == chars@.subrange(from as int, i as int),
        decreases to - i,
    {
        push_char(&mut text, chars[i]);
        i = i + 1;
        proof {
            assert(chars@.subrange(from as int, i as int) == chars@.subrange(
                from as int,
                i - 1,
            ).push(chars@[i - 1]));
        }
    }
    text
}

// Search and replacement

/// Whether `pattern` stands in `text` at position `at`.
pub open spec fn matches_at(text: Seq<char>, pattern: Seq<char>, at: int) -> bool {
    &&& 0 <= at
    &&& at + pattern.len() <= text.len()
    &&& text.subrange(at, at + pattern.len()) == pattern
}

/// Whether `pattern` stands somewhere in `text`.
pub open spec fn has_text(text: Seq<char>, pattern: Seq<char>) -> bool {
    exists|at: int| matches_at(text, pattern, at)
}

/// The number of occurrences of `pattern` that a left-to-right search without
/// overlaps finds from position `from` on.
pub open spec fn occurrences(text: Seq<char>, pattern: Seq<char>, from: int) -> nat
    decreases text.len() - from,
{
    if pattern.len() == 0 || from < 0 || from + pattern.len() > text.len() {
        0
    } else if matches_at(text, pattern, from) {
        1 + occurrences(text, pattern, from + pattern.len())
    } else {
        occurrences(text, pattern, from + 1)
    }
}

/// `text` from position `from` on, with every occurrence that a left-to-right
/// search without overlaps finds replaced.
pub open spec fn replaced(
    text: Seq<char>,
    pattern: Seq<char>,
    with: Seq<char>,
    from: int,
) -> Seq<char>
    decreases text.len() - from,
{
    if pattern.len() == 0 || from < 0 || from + pattern.len() > text.len() {
        text.skip(from)
    } else if matches_at(text, pattern, from) {
        with + replaced(text, pattern, with, from + pattern.len())
    } else {
        seq![text[from]] + replaced(text, pattern, with, from + 1)
    }
}

/// The first position from `from` on at which `pattern` stands, if any.
pub open spec fn first_match(text: Seq<char>, pattern: Seq<char>, from: int) -> Option<int>
    decreases text.len() + 1 - from,
{
    if from < 0 || from + pattern.len() > text.len() {
        None
    } else if matches_at(text, pattern, from) {
        Some(from)
    } else {
        first_match(text, pattern, from + 1)
    }
}

/// `text` with its first occurrence of `pattern` replaced.
pub open spec fn replaced_once(text: Seq<char>, pattern: Seq<char>, with: Seq<char>) -> Seq<char> {
    match first_match(text, pattern, 0) {
        Some(at) => text.take(at) + with + text.skip(at + pattern.len()),
        None => text,
    }
}

pub(crate) fn is_match_at(text: &Vec<char>, pattern: &Vec<char>, at: usize) -> (found: bool)
    ensures
        found == matches_at(text@, pattern@, at as int),
{
    if at > text.len() || text.len() - at < pattern.len() {
        return false;
    }
    let mut i: usize = 0;
    while i < pattern.len()
        invariant
            i <= pattern@.len(),
            at + pattern.len() <= text.len(),
            forall|j: int| 0 <= j < i ==> text@[at + j] == pattern@[j],
        decreases pattern@.len() - i,
    {
        if text[at + i] != pattern[i] {
            proof {
                assert(text@.subrange(at as int, at + pattern@.len())[i as int] != pattern@[i as int]);
            }
            return false;
        }
        i = i + 1;
    }
    proof {
        assert(text@.subrange(at as int, at + pattern@.len()) =~= pattern@);
    }
    true
}

proof fn lemma_first_match(text: Seq<char>, pattern: Seq<char>, from: int)
    requires
        0 <= from,
    ensures
        match first_match(text, pattern, from) {
            Some(at) => from <= at && matches_at(text, pattern, at) && forall|j: int|
                from <= j < at ==> !matches_at(text, pattern, j),
            None => forall|j: int| from <= j ==> !matches_at(text, pattern, j),
        },
    decreases text.len() + 1 - from,
{
    if from + pattern.len() > text.len() {
    } else if matches_at(text, pattern, from) {
    } else {
        lemma_first_match(text, pattern, from + 1);
    }
}

/// The first position from `from` on at which `pattern` stands.
pub(crate) fn find_from(text: &Vec<char>, pattern: &Vec<char>, from: usize) -> (found: Option<usize>)
    requires
        from <= text@.len(),
    ensures
        match found {
            Some(at) => first_match(text@, pattern@, from as int) == Some(at as int),
            None => first_match(text@, pattern@, from as int) is None,
        },
{
    let mut i: usize = from;
    while i <= text.len() && text.len() - i >= pattern.len()
        invariant
            from <= i <= text@.len() + 1,
            i == text@.len() + 1 ==> pattern@.len() == 0,
            first_match(text@, pattern@, from as int) == first_match(text@, pattern@, i as int),
        decreases text@.len() + 1 - i,
    {
        if is_match_at(text, pattern, i) {
            return Some(i);
        }
        proof {
            if pattern@.len() == 0 {
                assert(text@.subrange(i as int, i as int) =~= pattern@);
            }
        }
        i = i + 1;
    }
    None
}

/// Whether `pattern` stands somewhere in `text`.
pub fn contains_text(text: &str, pattern: &str) -> (found: bool)
    ensures
        found == has_text(text@, pattern@),
{
    let text_chars = chars_of(text);
    let pattern_chars = chars_of(pattern);
    proof {
        lemma_first_match(text@, pattern@, 0);
        if first_match(text@, pattern@, 0) is Some {
            assert(matches_at(text@, pattern@, first_match(text@, pattern@, 0)->0));
        }
    }
    find_from(&text_chars, &pattern_chars, 0).is_some()
}

/// The number of occurrences of `pattern` that do not overlap.
pub fn count_text(text: &str, pattern: &str) -> (count: usize)
    requires
        pattern@.len() > 0,
    ensures
        count == occurrences(text@, pattern@, 0),
{
    let text_chars = chars_of(text);
    let pattern_chars = chars_of(pattern);
    let mut count: usize = 0;
    let mut i: usize = 0;
    while i <= text_chars.len() && text_chars.len() - i >= pattern_chars.len()
        invariant
            text_chars@ == text@,
            pattern_chars@ == pattern@,
            pattern@.len() > 0,
            count <= i <= text@.len(),
            occurrences(text@, pattern@, 0) == count + occurrences(text@, pattern@, i as int),
        decreases text@.len() - i,
    {
        if is_match_at(&text_chars, &pattern_chars, i) {
            count = count + 1;
            i = i + pattern_chars.len();
        } else {
            i = i + 1;
        }
    }
    count
}

/// `text` with every occurrence of `pattern` replaced.
pub fn replace_text(text: &str, pattern: &str, with: &str) -> (result: String)
    requires
        pattern@.len() > 0,
    ensures
        result@ == replaced(text@, pattern@, with@, 0),
{
    let text_chars = chars_of(text);
    let pattern_chars = chars_of(pattern);
    let mut result = String::new();
    let mut i: usize = 0;
    while i <= text_chars.len() && text_chars.len() - i >= pattern_chars.len()
        invariant
            text_chars@ == text@,
            pattern_chars@ == pattern@,
            pattern@.len() > 0,
            i <= text@.len(),
            replaced(text@, pattern@, with@, 0) == result@ + replaced(
                text@,
                pattern@,
                with@,
                i as int,
            ),
        decreases text@.len() - i,
    {
        let ghost rest = replaced(text@, pattern@, with@, i as int);
        if is_match_at(&text_chars, &pattern_chars, i) {
            let ghost before = result@;
            result.append(with);
            proof {
                let tail = replaced(text@, pattern@, with@, i + pattern@.len());
                assert(before + (with@ + tail) =~= (before + with@) + tail);
            }
            i = i + pattern_chars.len();
        } else {
            let ghost before = result@;
            push_char(&mut result, text_chars[i]);
            proof {
                let tail = replaced(text@, pattern@, with@, i + 1);
                assert(before + (seq![text@[i as int]] + tail) =~= before.push(text@[i as int]) + tail);
            }
            i = i + 1;
        }
    }
    let rest = text_of(&text_chars, i, text_chars.len());
    proof {
        assert(text@.skip(i as int) =~= rest@);
    }
    result.append(rest.as_str());
    result
}

/// `text` with its first occurrence of `pattern` replaced.
pub fn replace_once(text: &str, pattern: &str, with: &str) -> (result: String)
    ensures
        result@ == replaced_once(text@, pattern@, with@),
{
    let text_chars = chars_of(text);
    let pattern_chars = chars_of(pattern);
    proof {
        lemma_first_match(text@, pattern@, 0);
    }
    match find_from(&text_chars, &pattern_chars, 0) {
        Some(at) => {
            let mut result = text_of(&text_chars, 0, at);
            result.append(with);
            assert(at + pattern_chars.len() <= text_chars.len());
            let rest = text_of(&text_chars, at + pattern_chars.len(), text_chars.len());
            result.append(rest.as_str());
            proof {
                assert(text@.subrange(0, at as int) =~= text@.take(at as int));
                assert(rest@ =~= text@.skip(at + pattern@.len()));
            }
            result
        },
        None => text.to_owned(),
    }
}

// Classes of characters

/// The characters with the Unicode property `White_Space`.
pub open spec fn is_white_space(character: char) -> bool {
    let code = character as int;
    ||| 0x09 <= code <= 0x0D
    ||| code == 0x20
    ||| code == 0x85
    ||| code == 0xA0
    ||| code == 0x1680
    ||| 0x2000 <= code <= 0x200A
    ||| code == 0x2028
    ||| code == 0x2029
    ||| code == 0x202F
    ||| code == 0x205F
    ||| code == 0x3000
}

/// The control characters of Unicode.
pub open spec fn is_control(character: char) -> bool {
    ||| character as int <= 0x1F
    ||| 0x7F <= character as int <= 0x9F
}

/// Whether a text holds nothing but white space.
pub open spec fn is_blank(text: Seq<char>) -> bool {
    forall|i: int| 0 <= i < text.len() ==> is_white_space(#[trigger] text[i])
}

/// The lower-case form of an ASCII letter; any other character unchanged.
pub open spec fn ascii_lower_char(character: char) -> char {
    if 'A' as int <= character as int <= 'Z' as int {
        (character as int + 32) as char
    } else {
        character
    }
}

/// A text with its ASCII letters in lower case.
pub open spec fn ascii_lower(text: Seq<char>) -> Seq<char> {
    Seq::new(text.len(), |i: int| ascii_lower_char(text[i]))
}

fn white_space(character: char) -> (white: bool)
    ensures
        white == is_white_space(character),
{
    let code = character as u32;
    (0x09 <= code && code <= 0x0D) || code == 0x20 || code == 0x85 || code == 0xA0 || code == 0x1680
        || (0x2000 <= code && code <= 0x200A) || code == 0x2028 || code == 0x2029 || code == 0x202F
        || code == 0x205F || code == 0x3000
}

/// Whether a character is a control character.
pub(crate) fn control(character: char) -> (is: bool)
    ensures
        is == is_control(character),
{
    let code = character as u32;
    code <= 0x1F || (0x7F <= code && code <= 0x9F)
}

/// Whether a text holds nothing but white space.
pub fn blank(text: &str) -> (res: bool)
    ensures
        res == is_blank(text@),
{
    let chars = chars_of(text);
    let mut i: usize = 0;
    while i < chars.len()
        invariant
            chars@ == text@,
            i <= chars@.len(),
            forall|j: int| 0 <= j < i ==> is_white_space(#[trigger] text@[j]),
        decreases chars@.len() - i,
    {
        if !white_space(chars[i]) {
            assert(!is_white_space(text@[i as int]));
            return false;
        }
        i = i + 1;
    }
    true
}

/// A text without the white space at its ends.
pub open spec fn trimmed(text: Seq<char>) -> Seq<char>
    decreases text.len(),
{
    if text.len() == 0 {
        text
    } else if is_white_space(text[0]) {
        trimmed(text.skip(1))
    } else if is_white_space(text.last()) {
        trimmed(text.drop_last())
    } else {
        text
    }
}

/// The text made of the characters `from .. to`, without the white space at its
/// ends.
pub fn trim_text(chars: &Vec<char>, from: usize, to: usize) -> (text: String)
    requires
        from <= to <= chars@.len(),
    ensures
        text@ == trimmed(chars@.subrange(from as int, to as int)),
{
    let mut first: usize = from;
    let mut end: usize = to;
    while first < end && white_space(chars[first])
        invariant
            from <= first <= end <= chars@.len(),
            trimmed(chars@.subrange(first as int, end as int)) == trimmed(
                chars@.subrange(from as int, to as int),
            ),
        decreases end - first,
    {
        proof {
            assert(chars@.subrange(first as int, end as int).skip(1) =~= chars@.subrange(
                first + 1,
                end as int,
            ));
        }
        first = first + 1;
    }
    while first < end && white_space(chars[end - 1])
        invariant
            from <= first <= end <= chars@.len(),
            first < end ==> !is_white_space(chars@[first as int]),
            trimmed(chars@.subrange(first as int, end as int)) == trimmed(
                chars@.subrange(from as int, to as int),
            ),
        decreases end - first,
    {
        proof {
            assert(chars@.subrange(first as int, end as int).drop_last() =~= chars@.subrange(
                first as int,
                end - 1,
            ));
        }
        end = end - 1;
    }
    text_of(chars, first, end)
}

/// A text with its ASCII letters in lower case.
pub fn lower_text(text: &str) -> (lower: String)
    ensures
        lower@ == ascii_lower(text@),
{
    let chars = chars_of(text);
    let mut lower = String::new();
    let mut i: usize = 0;
    while i < chars.len()
        invariant
            chars@ == text@,
            i <= chars@.len(),
            lower@ == ascii_lower(text@.take(i as int)),
        decreases chars@.len() - i,
    {
        let c = chars[i];
        let lowered = if 'A' <= c && c <= 'Z' {
            ((c as u32 as u8) + 32u8) as char
        } else {
            c
        };
        push_char(&mut lower, lowered);
        i = i + 1;
        proof {
            assert(ascii_lower(text@.take(i as int)) =~= ascii_lower(text@.take(i - 1)).push(
                ascii_lower_char(c),
            ));
        }
    }
    proof {
        assert(text@.take(text@.len() as int) =~= text@);
    }
    lower
}

/// Whether a text begins with a character.
pub fn begins_with(text: &str, character: char) -> (res: bool)
    ensures
        res == (text@.len() > 0 && text@[0] == character),
{
    let chars = chars_of(text);
    chars.len() > 0 && chars[0] == character
}

/// Whether a character occurs in a text.
pub fn has_char(text: &str, character: char) -> (res: bool)
    ensures
        res == text@.contains(character),
{
    let chars = chars_of(text);
    let mut i: usize = 0;
    while i < chars.len()
        invariant
            chars@ == text@,
            i <= chars@.len(),
            forall|j: int| 0 <= j < i ==> text@[j] != character,
        decreases chars@.len() - i,
    {
        if chars[i] == character {
            assert(text@[i as int] == character);
            return true;
        }
        i = i + 1;
    }
    false
}

// Lists of texts

/// The parts one after the other, with `separator` between each two.
pub open spec fn joined(parts: Seq<Seq<char>>, separator: Seq<char>) -> Seq<char>
    decreases parts.len(),
{
    if parts.len() == 0 {
        Seq::empty()
    } else if parts.len() == 1 {
        parts[0]
    } else {
        joined(parts.drop_last(), separator) + separator + parts.last()
    }
}

/// Joins texts with a separator.
pub fn join_text(parts: &Vec<String>, separator: &str) -> (text: String)
    ensures
        text@ == joined(views(parts@), separator@),
{
    let mut text = String::new();
    let mut i: usize = 0;
    while i < parts.len()
        invariant
            i <= parts@.len(),
            text@ == joined(views(parts@).take(i as int), separator@),
        decreases parts@.len() - i,
    {
        if i > 0 {
            text.append(separator);
        }
        text.append(parts[i].as_str());
        i = i + 1;
        proof {
            let now = views(parts@).take(i as int);
            assert(now.drop_last() =~= views(parts@).take(i - 1));
            assert(now.last() == parts@[i - 1]@);
            if i == 1 {
                assert(text@ =~= parts@[0]@);
            }
        }
    }
    proof {
        assert(views(parts@).take(parts@.len() as int) =~= views(parts@));
    }
    text
}

/// The order of texts by their characters' code points.
pub open spec fn text_le(a: Seq<char>, b: Seq<char>) -> bool
    decreases a.len(),
{
    if a.len() == 0 {
        true
    } else if b.len() == 0 {
        false
    } else if a[0] == b[0] {
        text_le(a.skip(1), b.skip(1))
    } else {
        (a[0] as int) < (b[0] as int)
    }
}

/// Whether texts stand in order.
pub open spec fn in_order(texts: Seq<Seq<char>>) -> bool {
    forall|i: int, j: int| 0 <= i < j < texts.len() ==> text_le(#[trigger] texts[i], #[trigger] texts[j])
}

/// Of two texts one comes first.
pub proof fn lemma_text_le_total(a: Seq<char>, b: Seq<char>)
    ensures
        text_le(a, b) || text_le(b, a),
    decreases a.len(),
{
    if a.len() > 0 && b.len() > 0 && a[0] == b[0] {
        lemma_text_le_total(a.skip(1), b.skip(1));
    }
}

/// What comes before a text comes before all that come after it.
pub proof fn lemma_text_le_transitive(a: Seq<char>, b: Seq<char>, c: Seq<char>)
    requires
        text_le(a, b),
        text_le(b, c),
    ensures
        text_le(a, c),
    decreases a.len(),
{
    if a.len() > 0 && b.len() > 0 && c.len() > 0 && a[0] == b[0] && b[0] == c[0] {
        lemma_text_le_transitive(a.skip(1), b.skip(1), c.skip(1));
    }
}

fn not_after(a: &str, b: &str) -> (res: bool)
    ensures
        res == text_le(a@, b@),
{
    let left = chars_of(a);
    let right = chars_of(b);
    let mut i: usize = 0;
    proof {
        assert(a@.skip(0) =~= a@);
        assert(b@.skip(0) =~= b@);
    }
    while i < left.len() && i < right.len() && left[i] == right[i]
        invariant
            left@ == a@,
            right@ == b@,
            i <= left@.len(),
            i <= right@.len(),
            text_le(a@, b@) == text_le(a@.skip(i as int), b@.skip(i as int)),
        decreases left@.len() - i,
    {
        proof {
            assert(a@.skip(i as int).skip(1) =~= a@.skip(i + 1));
            assert(b@.skip(i as int).skip(1) =~= b@.skip(i + 1));
        }
        i = i + 1;
    }
    if i >= left.len() {
        true
    } else if i >= right.len() {
        false
    } else {
        left[i] < right[i]
    }
}

/// Texts in order, with one more put in behind those that do not come after it.
pub open spec fn insert_text(texts: Seq<Seq<char>>, text: Seq<char>) -> Seq<Seq<char>>
    decreases texts.len(),
{
    if texts.len() == 0 || text_le(texts.last(), text) {
        texts.push(text)
    } else {
        insert_text(texts.drop_last(), text).push(texts.last())
    }
}

/// The texts, in order.
pub open spec fn sorted_texts(texts: Seq<Seq<char>>) -> Seq<Seq<char>>
    decreases texts.len(),
{
    if texts.len() == 0 {
        Seq::empty()
    } else {
        insert_text(sorted_texts(texts.drop_last()), texts.last())
    }
}

proof fn lemma_insert_text(texts: Seq<Seq<char>>, text: Seq<char>)
    requires
        in_order(texts),
    ensures
        in_order(insert_text(texts, text)),
        insert_text(texts, text).to_multiset() == texts.to_multiset().insert(text),
        forall|i: int|
            0 <= i < insert_text(texts, text).len() ==> insert_text(texts, text)[i] == text
                || texts.contains(#[trigger] insert_text(texts, text)[i]),
    decreases texts.len(),
{
    broadcast use vstd::multiset::group_multiset_axioms;

    let after = insert_text(texts, text);
    if texts.len() == 0 || text_le(texts.last(), text) {
        vstd::seq_lib::to_multiset_build(texts, text);
        assert forall|i: int| 0 <= i < after.len() implies after[i] == text || texts.contains(
            #[trigger] after[i],
        ) by {
            if i < texts.len() {
                assert(texts[i] == after[i]);
            }
        }
        assert forall|i: int, j: int| 0 <= i < j < after.len() implies text_le(
            #[trigger] after[i],
            #[trigger] after[j],
        ) by {
            if j == texts.len() && i < texts.len() - 1 {
                assert(text_le(texts[i], texts[texts.len() - 1]));
                lemma_text_le_transitive(texts[i], texts.last(), text);
            }
        }
    } else {
        let front = texts.drop_last();
        assert(in_order(front));
        lemma_insert_text(front, text);
        let inner = insert_text(front, text);
        lemma_text_le_total(texts.last(), text);
        assert forall|i: int| 0 <= i < inner.len() implies text_le(#[trigger] inner[i], texts.last())
            by {
            if inner[i] != text {
                let k = choose|k: int| 0 <= k < front.len() && front[k] == inner[i];
                assert(texts[k] == inner[i]);
                assert(text_le(texts[k], texts[texts.len() - 1]));
            }
        }
        vstd::seq_lib::to_multiset_build(inner, texts.last());
        vstd::seq_lib::to_multiset_build(front, texts.last());
        assert(front.push(texts.last()) =~= texts);
        assert(after.to_multiset() =~= texts.to_multiset().insert(text));
        assert forall|i: int| 0 <= i < after.len() implies after[i] == text || texts.contains(
            #[trigger] after[i],
        ) by {
            if i < inner.len() {
                if inner[i] != text {
                    let k = choose|k: int| 0 <= k < front.len() && front[k] == inner[i];
                    assert(texts[k] == after[i]);
                }
            } else {
                assert(texts[texts.len() - 1] == after[i]);
            }
        }
    }
}

/// Sorting puts texts in order and neither adds nor drops one.
pub proof fn sorting_keeps_every_text(texts: Seq<Seq<char>>)
    ensures
        in_order(sorted_texts(texts)),
        sorted_texts(texts).to_multiset() == texts.to_multiset(),
    decreases texts.len(),
{
    if texts.len() > 0 {
        sorting_keeps_every_text(texts.drop_last());
        lemma_insert_text(sorted_texts(texts.drop_last()), texts.last());
        vstd::seq_lib::to_multiset_build(texts.drop_last(), texts.last());
        assert(texts.drop_last().push(texts.last()) =~= texts);
    } else {
        assert(sorted_texts(texts) =~= texts);
    }
}

/// Puts texts in order.
pub fn sort_text(texts: &Vec<String>) -> (sorted: Vec<String>)
    ensures
        views(sorted@) == sorted_texts(views(texts@)),
{
    let ghost all = views(texts@);
    let mut sorted: Vec<String> = Vec::new();
    let mut i: usize = 0;
    proof {
        assert(all.take(0) =~= Seq::<Seq<char>>::empty());
        assert(views(sorted@) =~= Seq::<Seq<char>>::empty());
    }
    while i < texts.len()
        invariant
            all == views(texts@),
            i <= texts@.len(),
            views(sorted@) == sorted_texts(all.take(i as int)),
        decreases texts@.len() - i,
    {
        let entry = texts[i].clone();
        let ghost before = views(sorted@);
        let ghost added = entry@;
        let mut at: usize = sorted.len();
        proof {
            assert(before.take(at as int) =~= before);
            assert(insert_text(before, added) =~= insert_text(before.take(at as int), added)
                + before.skip(at as int));
        }
        while at > 0 && !not_after(sorted[at - 1].as_str(), entry.as_str())
            invariant
                at <= sorted@.len(),
                before == views(sorted@),
                added == entry@,
                insert_text(before, added) == insert_text(before.take(at as int), added)
                    + before.skip(at as int),
            decreases at,
        {
            proof {
                let front = before.take(at as int);
                assert(front.last() == before[at - 1]);
                assert(front.drop_last() =~= before.take(at - 1));
                assert(insert_text(front, added) + before.skip(at as int) =~= insert_text(
                    before.take(at - 1),
                    added,
                ) + before.skip(at - 1));
            }
            at = at - 1;
        }
        proof {
            let front = before.take(at as int);
            if at > 0 {
                assert(front.last() == before[at - 1]);
            }
            assert(insert_text(front, added) == front.push(added));
        }
        sorted.insert(at, entry);
        proof {
            assert(views(sorted@) =~= before.take(at as int).push(added) + before.skip(at as int));
            assert(all.take(i + 1).drop_last() =~= all.take(i as int));
            assert(all.take(i + 1).last() == added);
        }
        i = i + 1;
    }
    proof {
        assert(all.take(all.len() as int) =~= all);
    }
    sorted
}

// Texts made of parts

/// Two texts that are equal and whose parts before the separator are free of
/// it have the same parts.
pub proof fn lemma_split_first(
    left_a: Seq<char>,
    right_a: Seq<char>,
    left_b: Seq<char>,
    right_b: Seq<char>,
    separator: char,
)
    requires
        !left_a.contains(separator),
        !left_b.contains(separator),
        left_a.push(separator) + right_a == left_b.push(separator) + right_b,
    ensures
        left_a == left_b,
        right_a == right_b,
{
    let whole_a = left_a.push(separator) + right_a;
    let whole_b = left_b.push(separator) + right_b;
    assert(whole_a[left_a.len() as int] == separator);
    assert(whole_b[left_b.len() as int] == separator);
    assert(whole_a == whole_b);
    assert(whole_a.len() == left_a.len() + 1 + right_a.len());
    assert(whole_b.len() == left_b.len() + 1 + right_b.len());
    if left_a.len() < left_b.len() {
        assert(whole_b[left_a.len() as int] == left_b[left_a.len() as int]);
        assert(left_b.contains(separator));
    }
    if left_b.len() < left_a.len() {
        assert(whole_a[left_b.len() as int] == left_a[left_b.len() as int]);
        assert(left_a.contains(separator));
    }
    assert(left_a =~= whole_a.take(left_a.len() as int));
    assert(left_b =~= whole_b.take(left_b.len() as int));
    assert(right_a =~= whole_a.skip(left_a.len() as int + 1));
    assert(right_b =~= whole_b.skip(left_b.len() as int + 1));
}

/// Two texts that are equal and whose parts behind the separator are free of
/// it have the same parts.
pub proof fn lemma_split_last(
    left_a: Seq<char>,
    right_a: Seq<char>,
    left_b: Seq<char>,
    right_b: Seq<char>,
    separator: char,
)
    requires
        !right_a.contains(separator),
        !right_b.contains(separator),
        left_a.push(separator) + right_a == left_b.push(separator) + right_b,
    ensures
        left_a == left_b,
        right_a == right_b,
{
    let whole_a = left_a.push(separator) + right_a;
    let whole_b = left_b.push(separator) + right_b;
    assert(whole_a[left_a.len() as int] == separator);
    assert(whole_b[left_b.len() as int] == separator);
    assert(whole_a == whole_b);
    assert(whole_a.len() == left_a.len() + 1 + right_a.len());
    assert(whole_b.len() == left_b.len() + 1 + right_b.len());
    if left_a.len() < left_b.len() {
        assert(whole_a[left_b.len() as int] == right_a[left_b.len() - left_a.len() - 1]);
        assert(right_a.contains(separator));
    }
    if left_b.len() < left_a.len() {
        assert(whole_b[left_a.len() as int] == right_b[left_a.len() - left_b.len() - 1]);
        assert(right_b.contains(separator));
    }
    assert(left_a =~= whole_a.take(left_a.len() as int));
    assert(left_b =~= whole_b.take(left_b.len() as int));
    assert(right_a =~= whole_a.skip(left_a.len() as int + 1));
    assert(right_b =~= whole_b.skip(left_b.len() as int + 1));
}

// Laws

/// A text stands in another exactly where the other is made of something, that
/// text, and something more.
pub proof fn texts_stand_between_others(text: Seq<char>, pattern: Seq<char>)
    ensures
        has_text(text, pattern) <==> exists|front: Seq<char>, back: Seq<char>|
            text == #[trigger] (front + pattern + back),
{
    if has_text(text, pattern) {
        let at = choose|at: int| matches_at(text, pattern, at);
        let front = text.take(at);
        let back = text.skip(at + pattern.len());
        assert(front + pattern + back =~= text) by {
            assert(text.subrange(at, at + pattern.len()) == pattern);
            assert(text =~= text.take(at) + text.subrange(at, at + pattern.len()) + text.skip(
                at + pattern.len(),
            ));
        }
    }
    if exists|front: Seq<char>, back: Seq<char>| text == #[trigger] (front + pattern + back) {
        let (front, back) = choose|front: Seq<char>, back: Seq<char>|
            text == #[trigger] (front + pattern + back);
        lemma_stands_at(front, pattern, back);
    }
}

proof fn lemma_stands_at(front: Seq<char>, pattern: Seq<char>, back: Seq<char>)
    ensures
        matches_at(front + pattern + back, pattern, front.len() as int),
{
    let whole = front + pattern + back;
    assert(whole.subrange(front.len() as int, (front.len() + pattern.len()) as int) =~= pattern);
}

proof fn lemma_no_earlier(front: Seq<char>, pattern: Seq<char>, back: Seq<char>, at: int)
    requires
        pattern.len() > 0,
        !has_text((front + pattern).drop_last(), pattern),
        0 <= at < front.len(),
    ensures
        !matches_at(front + pattern + back, pattern, at),
{
    let whole = front + pattern + back;
    let start = (front + pattern).drop_last();
    if matches_at(whole, pattern, at) {
        assert(start.subrange(at, at + pattern.len()) =~= whole.subrange(at, at + pattern.len()));
        assert(matches_at(start, pattern, at));
    }
}

/// A text that does not stand in another is counted zero times in it, and
/// nothing is replaced.
pub proof fn absent_texts_are_not_replaced(text: Seq<char>, pattern: Seq<char>, with: Seq<char>)
    requires
        pattern.len() > 0,
        !has_text(text, pattern),
    ensures
        occurrences(text, pattern, 0) == 0,
        replaced(text, pattern, with, 0) == text,
        replaced_once(text, pattern, with) == text,
{
    lemma_absent(text, pattern, with, 0);
    lemma_first_match(text, pattern, 0);
    assert(text.skip(0) =~= text);
}

proof fn lemma_absent(text: Seq<char>, pattern: Seq<char>, with: Seq<char>, from: int)
    requires
        pattern.len() > 0,
        !has_text(text, pattern),
        0 <= from <= text.len(),
    ensures
        occurrences(text, pattern, from) == 0,
        replaced(text, pattern, with, from) == text.skip(from),
    decreases text.len() - from,
{
    if from + pattern.len() <= text.len() {
        assert(!matches_at(text, pattern, from));
        lemma_absent(text, pattern, with, from + 1);
        assert(seq![text[from]] + text.skip(from + 1) =~= text.skip(from));
    }
}

/// Where a text stands in another for the first time, it is counted and
/// replaced there, and both go on behind it.
pub proof fn replacement_goes_on_behind_a_match(
    front: Seq<char>,
    pattern: Seq<char>,
    back: Seq<char>,
    with: Seq<char>,
)
    requires
        pattern.len() > 0,
        !has_text((front + pattern).drop_last(), pattern),
    ensures
        occurrences(front + pattern + back, pattern, 0) == 1 + occurrences(back, pattern, 0),
        replaced(front + pattern + back, pattern, with, 0) == front + with + replaced(
            back,
            pattern,
            with,
            0,
        ),
        replaced_once(front + pattern + back, pattern, with) == front + with + back,
{
    let whole = front + pattern + back;
    let end = (front.len() + pattern.len()) as int;
    lemma_stands_at(front, pattern, back);
    lemma_up_to_match(front, pattern, back, with, 0);
    assert(whole.skip(end) =~= back);
    lemma_rest(whole, pattern, with, end, end);
    assert(front.skip(0) =~= front);
    lemma_first_match(whole, pattern, 0);
    let at = first_match(whole, pattern, 0)->0;
    if at < front.len() {
        lemma_no_earlier(front, pattern, back, at);
    }
    assert(at == front.len());
    assert(whole.take(at) =~= front);
}

proof fn lemma_up_to_match(
    front: Seq<char>,
    pattern: Seq<char>,
    back: Seq<char>,
    with: Seq<char>,
    from: int,
)
    requires
        pattern.len() > 0,
        !has_text((front + pattern).drop_last(), pattern),
        0 <= from <= front.len(),
    ensures
        ({
            let whole = front + pattern + back;
            let end = (front.len() + pattern.len()) as int;
            &&& occurrences(whole, pattern, from) == 1 + occurrences(whole, pattern, end)
            &&& replaced(whole, pattern, with, from) == front.skip(from) + with + replaced(
                whole,
                pattern,
                with,
                end,
            )
        }),
    decreases front.len() - from,
{
    let whole = front + pattern + back;
    let end = (front.len() + pattern.len()) as int;
    let rest = replaced(whole, pattern, with, end);
    if from == front.len() {
        lemma_stands_at(front, pattern, back);
        assert(front.skip(from) + with + rest =~= with + rest);
    } else {
        lemma_no_earlier(front, pattern, back, from);
        lemma_up_to_match(front, pattern, back, with, from + 1);
        assert(whole[from] == front[from]);
        assert(seq![whole[from]] + (front.skip(from + 1) + with + rest) =~= front.skip(from) + with
            + rest);
    }
}

proof fn lemma_rest(text: Seq<char>, pattern: Seq<char>, with: Seq<char>, by: int, from: int)
    requires
        0 <= by <= text.len(),
        by <= from <= text.len(),
    ensures
        occurrences(text, pattern, from) == occurrences(text.skip(by), pattern, from - by),
        replaced(text, pattern, with, from) == replaced(text.skip(by), pattern, with, from - by),
    decreases text.len() - from,
{
    let behind = text.skip(by);
    if pattern.len() == 0 || from + pattern.len() > text.len() {
        assert(behind.skip(from - by) =~= text.skip(from));
    } else {
        assert(behind.subrange(from - by, from - by + pattern.len()) =~= text.subrange(
            from,
            from + pattern.len(),
        ));
        if matches_at(text, pattern, from) {
            lemma_rest(text, pattern, with, by, from + pattern.len());
        } else {
            lemma_rest(text, pattern, with, by, from + 1);
        }
    }
}

/// Trimming takes white space off both ends and nothing else: what is left
/// neither begins nor ends with white space, and all around it was white space.
pub proof fn trimming_takes_off_white_space(text: Seq<char>)
    ensures
        exists|front: Seq<char>, back: Seq<char>|
            text == #[trigger] (front + trimmed(text) + back) && is_blank(front) && is_blank(back),
        trimmed(text).len() > 0 ==> !is_white_space(trimmed(text)[0]) && !is_white_space(
            trimmed(text).last(),
        ),
    decreases text.len(),
{
    let none = Seq::<char>::empty();
    if text.len() == 0 {
        assert(text =~= none + trimmed(text) + none);
    } else if is_white_space(text[0]) {
        let inner = text.skip(1);
        trimming_takes_off_white_space(inner);
        let (front, back) = choose|front: Seq<char>, back: Seq<char>|
            inner == #[trigger] (front + trimmed(inner) + back) && is_blank(front) && is_blank(back);
        let more = seq![text[0]] + front;
        assert(trimmed(text) == trimmed(inner));
        assert(seq![text[0]] + (front + trimmed(inner) + back) =~= more + trimmed(inner) + back);
        assert(text =~= seq![text[0]] + inner);
        assert(is_blank(more));
    } else if is_white_space(text.last()) {
        let inner = text.drop_last();
        trimming_takes_off_white_space(inner);
        let (front, back) = choose|front: Seq<char>, back: Seq<char>|
            inner == #[trigger] (front + trimmed(inner) + back) && is_blank(front) && is_blank(back);
        let more = back.push(text.last());
        assert(trimmed(text) == trimmed(inner));
        assert((front + trimmed(inner) + back).push(text.last()) =~= front + trimmed(inner) + more);
        assert(text =~= inner.push(text.last()));
        assert(is_blank(more));
    } else {
        assert(text =~= none + trimmed(text) + none);
    }
}

/// The characters that are white space are the ones that Unicode names so.
pub proof fn white_space_is_as_in_unicode(character: char)
    ensures
        is_white_space(character) <==> seq![
            9int,
            10,
            11,
            12,
            13,
            32,
            133,
            160,
            5760,
            8192,
            8193,
            8194,
            8195,
            8196,
            8197,
            8198,
            8199,
            8200,
            8201,
            8202,
            8232,
            8233,
            8239,
            8287,
            12288,
        ].contains(character as int),
{
    let codes = seq![
        9int,
        10,
        11,
        12,
        13,
        32,
        133,
        160,
        5760,
        8192,
        8193,
        8194,
        8195,
        8196,
        8197,
        8198,
        8199,
        8200,
        8201,
        8202,
        8232,
        8233,
        8239,
        8287,
        12288,
    ];
    let code = character as int;
    if is_white_space(character) {
        let at: int = if code <= 13 {
            code - 9
        } else if code == 32 {
            5
        } else if code == 133 {
            6
        } else if code == 160 {
            7
        } else if code == 5760 {
            8
        } else if code <= 8202 {
            code - 8192 + 9
        } else if code == 8232 {
            20
        } else if code == 8233 {
            21
        } else if code == 8239 {
            22
        } else if code == 8287 {
            23
        } else {
            24
        };
        assert(codes[at] == code);
    }
}

/// Texts that are joined stand one after the other with the separator between
/// them, wherever they are parted.
pub proof fn joining_keeps_every_part(
    front: Seq<Seq<char>>,
    back: Seq<Seq<char>>,
    separator: Seq<char>,
)
    ensures
        front.len() > 0 && back.len() > 0 ==> joined(front + back, separator) == joined(
            front,
            separator,
        ) + separator + joined(back, separator),
        front.len() == 1 ==> joined(front, separator) == front[0],
        front.len() == 0 ==> joined(front, separator).len() == 0,
    decreases back.len(),
{
    if front.len() > 0 && back.len() > 0 {
        assert((front + back).drop_last() =~= front + back.drop_last());
        assert((front + back).last() == back.last());
        let ahead = joined(front, separator);
        if back.len() == 1 {
            assert(front + back.drop_last() =~= front);
        } else {
            joining_keeps_every_part(front, back.drop_last(), separator);
            let rest = joined(back.drop_last(), separator);
            assert(ahead + separator + rest + separator + back.last() =~= ahead + separator + (rest
                + separator + back.last()));
        }
    }
}

/// In lower case the letters from `A` to `Z` become those from `a` to `z`, and
/// every other character stays.
pub proof fn lower_case_changes_capitals_only(text: Seq<char>, i: int)
    requires
        0 <= i < text.len(),
    ensures
        ascii_lower(text).len() == text.len(),
        ({
            let before = text[i];
            let after = ascii_lower(text)[i];
            if 'A' <= before <= 'Z' {
                after as int - 'a' as int == before as int - 'A' as int
            } else {
                after == before
            }
        }),
{
}

proof fn lemma_prefix_skipped(a: Seq<char>, b: Seq<char>)
    requires
        a.len() > 0,
        b.len() > 0,
        a[0] == b[0],
    ensures
        a.is_prefix_of(b) <==> a.skip(1).is_prefix_of(b.skip(1)),
        differs_upwards(a, b) <==> differs_upwards(a.skip(1), b.skip(1)),
{
    let c = a.skip(1);
    let d = b.skip(1);
    if a.is_prefix_of(b) {
        assert(c =~= d.subrange(0, c.len() as int)) by {
            assert(a =~= b.subrange(0, a.len() as int));
            assert forall|i: int| 0 <= i < c.len() implies c[i] == d[i] by {
                assert(a[i + 1] == b.subrange(0, a.len() as int)[i + 1]);
            }
        }
    }
    if c.is_prefix_of(d) {
        assert forall|i: int| 0 <= i < a.len() implies a[i] == b[i] by {
            if i > 0 {
                assert(c[i - 1] == d.subrange(0, c.len() as int)[i - 1]);
            }
        }
        assert(a =~= b.subrange(0, a.len() as int));
    }
    if differs_upwards(a, b) {
        let k = choose|k: int| differs_upwards_at(a, b, k);
        assert(k > 0);
        assert forall|i: int| 0 <= i < k - 1 implies c[i] == d[i] by {
            assert(a[i + 1] == b[i + 1]);
        }
        assert(differs_upwards_at(c, d, k - 1));
    }
    if differs_upwards(c, d) {
        let k = choose|k: int| differs_upwards_at(c, d, k);
        assert forall|i: int| 0 <= i < k + 1 implies a[i] == b[i] by {
            if i > 0 {
                assert(c[i - 1] == d[i - 1]);
            }
        }
        assert(differs_upwards_at(a, b, k + 1));
    }
}

/// Whether two texts agree up to a place at which the first has the smaller
/// character.
pub open spec fn differs_upwards_at(a: Seq<char>, b: Seq<char>, k: int) -> bool {
    &&& 0 <= k < a.len()
    &&& k < b.len()
    &&& forall|i: int| 0 <= i < k ==> a[i] == b[i]
    &&& (a[k] as int) < (b[k] as int)
}

/// Whether the first difference of two texts is one at which the first has the
/// smaller character.
pub open spec fn differs_upwards(a: Seq<char>, b: Seq<char>) -> bool {
    exists|k: int| differs_upwards_at(a, b, k)
}

/// The order of texts goes by their first difference, and a text that begins
/// another comes before it.
pub proof fn order_goes_by_the_first_difference(a: Seq<char>, b: Seq<char>)
    ensures
        text_le(a, b) <==> a.is_prefix_of(b) || differs_upwards(a, b),
    decreases a.len(),
{
    if a.len() == 0 {
        assert(a =~= b.subrange(0, 0));
    } else if b.len() == 0 {
    } else if a[0] == b[0] {
        lemma_prefix_skipped(a, b);
        order_goes_by_the_first_difference(a.skip(1), b.skip(1));
    } else {
        if a.is_prefix_of(b) {
            assert(a[0] == b.subrange(0, a.len() as int)[0]);
        }
        if (a[0] as int) < (b[0] as int) {
            assert(differs_upwards_at(a, b, 0));
        }
        if differs_upwards(a, b) {
            let k = choose|k: int| differs_upwards_at(a, b, k);
            assert(k == 0);
        }
    }
}

/// The characters that control are those below the space, and those from the
/// delete character on up to the last of the second set.
pub proof fn control_characters_are_in_two_sets(character: char)
    ensures
        is_control(character) <==> (character as int) < 32 || 126 < (character as int) < 160,
{
}

} // verus!
