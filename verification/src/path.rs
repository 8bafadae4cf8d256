//! Paths as texts: their segments, and what is inside a directory.

use crate::text::{chars_of, join_text, joined, push_char, same_text, views};
use vstd::prelude::*;
use vstd::string::StringExecFns;

verus! {

/// How the host writes paths.
#[derive(Clone, Copy, Debug, PartialEq, Eq, Structural)]
pub enum PathStyle {
    Unix,
    Windows,
}

/// Whether a character separates the segments of a path.
pub open spec fn is_separator(style: PathStyle, character: char) -> bool {
    character == '/' || (style == PathStyle::Windows && character == '\\')
}

/// The character that is written between segments.
pub open spec fn separator(style: PathStyle) -> char {
    match style {
        PathStyle::Unix => '/',
        PathStyle::Windows => '\\',
    }
}

/// The pieces of a path between its separators, empty ones too.
pub open spec fn pieces(style: PathStyle, path: Seq<char>) -> Seq<Seq<char>>
    decreases path.len(),
{
    if path.len() == 0 {
        seq![Seq::empty()]
    } else {
        let before = pieces(style, path.drop_last());
        if is_separator(style, path.last()) {
            before.push(Seq::empty())
        } else {
            before.drop_last().push(before.last().push(path.last()))
        }
    }
}

/// Whether a piece names something: it is neither empty nor `.`.
pub open spec fn is_segment(piece: Seq<char>) -> bool {
    piece.len() > 0 && piece != "."@
}

/// The pieces that name something.
pub open spec fn named(parts: Seq<Seq<char>>) -> Seq<Seq<char>>
    decreases parts.len(),
{
    if parts.len() == 0 {
        Seq::empty()
    } else if is_segment(parts.last()) {
        named(parts.drop_last()).push(parts.last())
    } else {
        named(parts.drop_last())
    }
}

/// The segments of a path.
pub open spec fn segments(style: PathStyle, path: Seq<char>) -> Seq<Seq<char>> {
    named(pieces(style, path))
}

/// Whether a path begins at the root.
pub open spec fn is_rooted(style: PathStyle, path: Seq<char>) -> bool {
    path.len() > 0 && is_separator(style, path[0])
}

/// Whether a character is an ASCII letter.
pub open spec fn is_letter(character: char) -> bool {
    ||| 'a' as int <= character as int <= 'z' as int
    ||| 'A' as int <= character as int <= 'Z' as int
}

/// Whether a path begins with a drive.
pub open spec fn has_drive(style: PathStyle, path: Seq<char>) -> bool {
    &&& style == PathStyle::Windows
    &&& path.len() >= 2
    &&& is_letter(path[0])
    &&& path[1] == ':'
}

/// Whether a path goes up somewhere.
pub open spec fn goes_up(style: PathStyle, path: Seq<char>) -> bool {
    pieces(style, path).contains(".."@)
}

/// Whether a path is relative and never goes up.
pub open spec fn is_plain_relative(style: PathStyle, path: Seq<char>) -> bool {
    &&& path.len() > 0
    &&& !is_rooted(style, path)
    &&& !has_drive(style, path)
    &&& !goes_up(style, path)
}

/// Whether a path lies in a directory or is it: the segments of the directory
/// come first among its own.
pub open spec fn is_inside(style: PathStyle, path: Seq<char>, directory: Seq<char>) -> bool {
    &&& is_rooted(style, directory) == is_rooted(style, path)
    &&& segments(style, directory).is_prefix_of(segments(style, path))
}

/// A path below a directory.
pub open spec fn joined_path(style: PathStyle, directory: Seq<char>, path: Seq<char>) -> Seq<char> {
    if directory.len() == 0 || is_separator(style, directory.last()) {
        directory + path
    } else {
        directory.push(separator(style)) + path
    }
}

fn separates(style: PathStyle, character: char) -> (res: bool)
    ensures
        res == is_separator(style, character),
{
    character == '/' || (style == PathStyle::Windows && character == '\\')
}

fn split_pieces(style: PathStyle, path: &str) -> (parts: Vec<String>)
    ensures
        views(parts@) == pieces(style, path@),
{
    let chars = chars_of(path);
    let mut parts: Vec<String> = Vec::new();
    let mut current = String::new();
    let mut i: usize = 0;
    proof {
        assert(path@.take(0) =~= Seq::<char>::empty());
        assert(views(parts@).push(current@) =~= pieces(style, path@.take(0)));
    }
    while i < chars.len()
        invariant
            chars@ == path@,
            i <= chars@.len(),
            views(parts@).push(current@) == pieces(style, path@.take(i as int)),
        decreases chars@.len() - i,
    {
        let c = chars[i];
        let ghost before = views(parts@);
        let ghost piece = current@;
        proof {
            assert(path@.take(i + 1).drop_last() =~= path@.take(i as int));
            assert(path@.take(i + 1).last() == c);
            assert(before.push(piece).drop_last() =~= before);
            assert(before.push(piece).last() == piece);
        }
        if separates(style, c) {
            parts.push(current);
            current = String::new();
            proof {
                assert(views(parts@) =~= before.push(piece));
                assert(current@ =~= Seq::<char>::empty());
            }
        } else {
            push_char(&mut current, c);
        }
        i = i + 1;
    }
    let ghost before = views(parts@);
    let ghost piece = current@;
    parts.push(current);
    proof {
        assert(views(parts@) =~= before.push(piece));
        assert(path@.take(path@.len() as int) =~= path@);
    }
    parts
}

/// The segments of a path.
pub fn path_segments(style: PathStyle, path: &str) -> (result: Vec<String>)
    ensures
        views(result@) == segments(style, path@),
{
    let parts = split_pieces(style, path);
    let ghost all = views(parts@);
    let mut result: Vec<String> = Vec::new();
    let mut i: usize = 0;
    proof {
        assert(all.take(0) =~= Seq::<Seq<char>>::empty());
        assert(views(result@) =~= Seq::<Seq<char>>::empty());
    }
    while i < parts.len()
        invariant
            all == views(parts@),
            i <= parts@.len(),
            views(result@) == named(all.take(i as int)),
        decreases parts@.len() - i,
    {
        proof {
            assert(all.take(i + 1).drop_last() =~= all.take(i as int));
            assert(all.take(i + 1).last() == parts@[i as int]@);
        }
        let ghost before = views(result@);
        if !parts[i].as_str().is_empty() && !same_text(parts[i].as_str(), ".") {
            result.push(parts[i].clone());
            proof {
                assert(views(result@) =~= before.push(parts@[i as int]@));
            }
        }
        i = i + 1;
    }
    proof {
        assert(all.take(all.len() as int) =~= all);
    }
    result
}

/// Whether a path goes up somewhere.
pub fn path_goes_up(style: PathStyle, path: &str) -> (res: bool)
    ensures
        res == goes_up(style, path@),
{
    let parts = split_pieces(style, path);
    let mut i: usize = 0;
    while i < parts.len()
        invariant
            i <= parts@.len(),
            views(parts@) == pieces(style, path@),
            forall|j: int| 0 <= j < i ==> views(parts@)[j] != ".."@,
        decreases parts@.len() - i,
    {
        if same_text(parts[i].as_str(), "..") {
            assert(views(parts@)[i as int] == ".."@);
            return true;
        }
        i = i + 1;
    }
    false
}

/// Whether a path begins at the root.
pub fn path_is_rooted(style: PathStyle, path: &str) -> (res: bool)
    ensures
        res == is_rooted(style, path@),
{
    let chars = chars_of(path);
    chars.len() > 0 && separates(style, chars[0])
}

/// Whether a path is relative and never goes up.
pub fn path_is_plain_relative(style: PathStyle, path: &str) -> (res: bool)
    ensures
        res == is_plain_relative(style, path@),
{
    let chars = chars_of(path);
    if chars.len() == 0 || path_is_rooted(style, path) {
        return false;
    }
    let letter = ('a' <= chars[0] && chars[0] <= 'z') || ('A' <= chars[0] && chars[0] <= 'Z');
    if style == PathStyle::Windows && chars.len() >= 2 && letter && chars[1] == ':' {
        return false;
    }
    !path_goes_up(style, path)
}

/// Whether a path lies in a directory or is it.
pub fn path_is_inside(style: PathStyle, path: &str, directory: &str) -> (res: bool)
    ensures
        res == is_inside(style, path@, directory@),
{
    if path_is_rooted(style, path) != path_is_rooted(style, directory) {
        return false;
    }
    let inner = path_segments(style, path);
    let outer = path_segments(style, directory);
    let ghost path_parts = views(inner@);
    let ghost directory_parts = views(outer@);
    if outer.len() > inner.len() {
        return false;
    }
    let mut i: usize = 0;
    while i < outer.len()
        invariant
            path_parts == views(inner@),
            directory_parts == views(outer@),
            path_parts == segments(style, path@),
            directory_parts == segments(style, directory@),
            i <= outer@.len() <= inner@.len(),
            forall|j: int| 0 <= j < i ==> path_parts[j] == #[trigger] directory_parts[j],
        decreases outer@.len() - i,
    {
        if !same_text(outer[i].as_str(), inner[i].as_str()) {
            proof {
                assert(directory_parts[i as int] != path_parts[i as int]);
                if directory_parts.is_prefix_of(path_parts) {
                    assert(path_parts.take(directory_parts.len() as int)[i as int]
                        == path_parts[i as int]);
                }
            }
            return false;
        }
        i = i + 1;
    }
    proof {
        assert(path_parts.take(directory_parts.len() as int) =~= directory_parts);
    }
    true
}

/// A path below a directory.
pub fn join_path(style: PathStyle, directory: &str, path: &str) -> (result: String)
    ensures
        result@ == joined_path(style, directory@, path@),
{
    let chars = chars_of(directory);
    let mut result = directory.to_owned();
    if chars.len() > 0 && !separates(style, chars[chars.len() - 1]) {
        let between = match style {
            PathStyle::Unix => '/',
            PathStyle::Windows => '\\',
        };
        push_char(&mut result, between);
    }
    result.append(path);
    result
}

/// The text of a path made of segments.
pub open spec fn path_of(style: PathStyle, parts: Seq<Seq<char>>) -> Seq<char> {
    joined(parts, seq![separator(style)])
}

/// The text of the first `count` segments.
pub fn path_text(style: PathStyle, parts: &Vec<String>, count: usize) -> (text: String)
    requires
        count <= parts@.len(),
    ensures
        text@ == path_of(style, views(parts@).take(count as int)),
{
    let mut front: Vec<String> = Vec::new();
    let mut i: usize = 0;
    while i < count
        invariant
            i <= count <= parts@.len(),
            front@ == parts@.take(i as int),
        decreases count - i,
    {
        front.push(parts[i].clone());
        i = i + 1;
        proof {
            assert(parts@.take(i as int) =~= parts@.take(i - 1).push(parts@[i - 1]));
        }
    }
    let mut between = String::new();
    push_char(
        &mut between,
        match style {
            PathStyle::Unix => '/',
            PathStyle::Windows => '\\',
        },
    );
    proof {
        assert(between@ =~= seq![separator(style)]);
        assert(views(front@) =~= views(parts@).take(count as int));
    }
    join_text(&front, between.as_str())
}

// Joining

proof fn lemma_pieces_nonempty(style: PathStyle, path: Seq<char>)
    ensures
        pieces(style, path).len() > 0,
    decreases path.len(),
{
    if path.len() > 0 {
        lemma_pieces_nonempty(style, path.drop_last());
    }
}

proof fn lemma_pieces_joined(style: PathStyle, front: Seq<char>, between: char, back: Seq<char>)
    requires
        is_separator(style, between),
    ensures
        pieces(style, front.push(between) + back) == pieces(style, front) + pieces(style, back),
    decreases back.len(),
{
    let whole = front.push(between) + back;
    if back.len() == 0 {
        assert(whole =~= front.push(between));
        assert(whole.drop_last() =~= front);
        assert(pieces(style, whole) =~= pieces(style, front) + pieces(style, back));
    } else {
        lemma_pieces_joined(style, front, between, back.drop_last());
        lemma_pieces_nonempty(style, back.drop_last());
        assert(whole.drop_last() =~= front.push(between) + back.drop_last());
        assert(whole.last() == back.last());
        assert(pieces(style, whole) =~= pieces(style, front) + pieces(style, back));
    }
}

proof fn lemma_named_joined(front: Seq<Seq<char>>, back: Seq<Seq<char>>)
    ensures
        named(front + back) == named(front) + named(back),
    decreases back.len(),
{
    if back.len() == 0 {
        assert(front + back =~= front);
        assert(named(front) + named(back) =~= named(front));
    } else {
        lemma_named_joined(front, back.drop_last());
        assert((front + back).drop_last() =~= front + back.drop_last());
        assert((front + back).last() == back.last());
        assert(named(front + back) =~= named(front) + named(back));
    }
}

/// The segments of a joined path are those of the directory and then those of
/// the path below it.
pub proof fn joining_appends_segments(style: PathStyle, directory: Seq<char>, path: Seq<char>)
    ensures
        segments(style, joined_path(style, directory, path)) == segments(style, directory)
            + segments(style, path),
{
    if directory.len() == 0 {
        assert(directory + path =~= path);
        assert(directory =~= Seq::<char>::empty());
        assert(pieces(style, directory) =~= seq![Seq::<char>::empty()]);
        assert(pieces(style, directory).drop_last() =~= Seq::<Seq<char>>::empty());
        assert(named(Seq::<Seq<char>>::empty()) =~= Seq::<Seq<char>>::empty());
        assert(segments(style, directory) =~= Seq::<Seq<char>>::empty());
        assert(Seq::<Seq<char>>::empty() + segments(style, path) =~= segments(style, path));
    } else if is_separator(style, directory.last()) {
        let front = directory.drop_last();
        assert(front.push(directory.last()) =~= directory);
        lemma_pieces_joined(style, front, directory.last(), path);
        lemma_named_joined(pieces(style, front), pieces(style, path));
        assert(pieces(style, directory).drop_last() =~= pieces(style, front));
    } else {
        lemma_pieces_joined(style, directory, separator(style), path);
        lemma_named_joined(pieces(style, directory), pieces(style, path));
    }
}

/// A path joined to a directory lies in that directory, and in every directory
/// that holds it.
pub proof fn joining_stays_inside(
    style: PathStyle,
    root: Seq<char>,
    directory: Seq<char>,
    path: Seq<char>,
)
    requires
        is_inside(style, directory, root),
        !is_rooted(style, path),
    ensures
        is_inside(style, joined_path(style, directory, path), root),
{
    joining_appends_segments(style, directory, path);
    let whole = joined_path(style, directory, path);
    let outer = segments(style, root);
    let inner = segments(style, directory);
    assert(segments(style, whole).take(outer.len() as int) =~= inner.take(outer.len() as int));
    assert(is_rooted(style, whole) == is_rooted(style, directory)) by {
        if directory.len() == 0 {
            assert(whole =~= path);
        } else {
            assert(whole[0] == directory[0]);
        }
    }
}

proof fn lemma_pieces_have_no_separator(style: PathStyle, path: Seq<char>, i: int, j: int)
    requires
        0 <= i < pieces(style, path).len(),
        0 <= j < pieces(style, path)[i].len(),
    ensures
        !is_separator(style, pieces(style, path)[i][j]),
    decreases path.len(),
{
    if path.len() > 0 {
        let before = pieces(style, path.drop_last());
        lemma_pieces_nonempty(style, path.drop_last());
        if i < before.len() && j < before[i].len() {
            lemma_pieces_have_no_separator(style, path.drop_last(), i, j);
        }
    }
}

proof fn lemma_named_are_pieces(parts: Seq<Seq<char>>, i: int)
    requires
        0 <= i < named(parts).len(),
    ensures
        is_segment(named(parts)[i]),
        parts.contains(named(parts)[i]),
    decreases parts.len(),
{
    if parts.len() > 0 {
        let front = parts.drop_last();
        if i < named(front).len() {
            lemma_named_are_pieces(front, i);
            let k = choose|k: int| 0 <= k < front.len() && front[k] == named(front)[i];
            assert(parts[k] == named(parts)[i]);
        } else {
            assert(parts[parts.len() - 1] == named(parts)[i]);
        }
    }
}

/// Whether a text is the name of one thing in a directory.
pub open spec fn is_plain_name(style: PathStyle, name: Seq<char>) -> bool {
    &&& is_segment(name)
    &&& name != ".."@
    &&& forall|i: int| 0 <= i < name.len() ==> !is_separator(style, #[trigger] name[i])
}

/// Every segment of a path that never goes up is a plain name.
pub proof fn segments_are_plain_names(style: PathStyle, path: Seq<char>, i: int)
    requires
        !goes_up(style, path),
        0 <= i < segments(style, path).len(),
    ensures
        is_plain_name(style, segments(style, path)[i]),
{
    let parts = pieces(style, path);
    let name = segments(style, path)[i];
    lemma_named_are_pieces(parts, i);
    let k = choose|k: int| 0 <= k < parts.len() && parts[k] == name;
    assert forall|j: int| 0 <= j < name.len() implies !is_separator(style, #[trigger] name[j]) by {
        lemma_pieces_have_no_separator(style, path, k, j);
    }
}

// Laws

/// On Unix names are parted by slashes, and on Windows by backslashes too.
pub proof fn separators_are_slashes(character: char)
    ensures
        is_separator(PathStyle::Unix, character) <==> character == '/',
        is_separator(PathStyle::Windows, character) <==> character == '/' || character == '\\',
{
}

proof fn lemma_one_piece(style: PathStyle, path: Seq<char>)
    requires
        forall|i: int| 0 <= i < path.len() ==> !is_separator(style, #[trigger] path[i]),
    ensures
        pieces(style, path) == seq![path],
    decreases path.len(),
{
    if path.len() > 0 {
        let front = path.drop_last();
        assert forall|i: int| 0 <= i < front.len() implies !is_separator(
            style,
            #[trigger] front[i],
        ) by {
            assert(front[i] == path[i]);
        }
        lemma_one_piece(style, front);
        assert(!is_separator(style, path[path.len() - 1]));
        assert(front.push(path.last()) =~= path);
        assert(pieces(style, path) =~= seq![path]);
    } else {
        assert(path =~= Seq::<char>::empty());
    }
}

/// A path without a separator is one name, unless it is empty or a dot, and goes
/// up only if it is two dots.
pub proof fn names_are_single_segments(style: PathStyle, path: Seq<char>)
    requires
        forall|i: int| 0 <= i < path.len() ==> !is_separator(style, #[trigger] path[i]),
    ensures
        segments(style, path) == if path.len() == 0 || path == "."@ {
            Seq::empty()
        } else {
            seq![path]
        },
        goes_up(style, path) <==> path == ".."@,
{
    lemma_one_piece(style, path);
    let parts = seq![path];
    assert(parts.drop_last() =~= Seq::<Seq<char>>::empty());
    assert(named(parts.drop_last()) =~= Seq::<Seq<char>>::empty());
    assert(Seq::<Seq<char>>::empty().push(path) =~= parts);
    assert(parts[0] == path);
    if path == ".."@ {
        assert(parts.contains(".."@));
    }
}

/// A path is cut at each separator: it has the names before it and those behind
/// it, and goes up if one of the two does.
pub proof fn paths_are_cut_at_separators(
    style: PathStyle,
    front: Seq<char>,
    between: char,
    back: Seq<char>,
)
    requires
        is_separator(style, between),
    ensures
        segments(style, front.push(between) + back) == segments(style, front) + segments(
            style,
            back,
        ),
        goes_up(style, front.push(between) + back) <==> goes_up(style, front) || goes_up(
            style,
            back,
        ),
{
    lemma_pieces_joined(style, front, between, back);
    lemma_named_joined(pieces(style, front), pieces(style, back));
    let one = pieces(style, front);
    let two = pieces(style, back);
    if goes_up(style, front) {
        let i = choose|i: int| 0 <= i < one.len() && one[i] == ".."@;
        assert((one + two)[i] == ".."@);
    }
    if goes_up(style, back) {
        let i = choose|i: int| 0 <= i < two.len() && two[i] == ".."@;
        assert((one + two)[one.len() + i] == ".."@);
    }
    if (one + two).contains(".."@) {
        let i = choose|i: int| 0 <= i < (one + two).len() && (one + two)[i] == ".."@;
        if i < one.len() {
            assert(one[i] == ".."@);
        } else {
            assert(two[i - one.len()] == ".."@);
        }
    }
}

/// Which paths are plain and relative: those that are not empty, do not begin
/// with a separator or, on Windows, with the letter of a drive, and go nowhere
/// up.
pub proof fn plain_paths_neither_start_over_nor_go_up(style: PathStyle, path: Seq<char>)
    ensures
        is_plain_relative(style, path) <==> {
            &&& path.len() > 0
            &&& path[0] != '/'
            &&& !goes_up(style, path)
            &&& style == PathStyle::Windows ==> path[0] != '\\' && !(path.len() > 1 && path[1]
                == ':' && ('a' <= path[0] <= 'z' || 'A' <= path[0] <= 'Z'))
        },
{
}

/// Which paths lie in a directory: those that begin with all of its names, in
/// their order, and start at the top exactly if the directory does.
pub proof fn paths_inside_begin_with_the_directory(
    style: PathStyle,
    path: Seq<char>,
    directory: Seq<char>,
)
    ensures
        is_inside(style, path, directory) <==> {
            &&& segments(style, directory).len() <= segments(style, path).len()
            &&& forall|i: int|
                0 <= i < segments(style, directory).len() ==> #[trigger] segments(style, path)[i]
                    == segments(style, directory)[i]
            &&& (path.len() > 0 && is_separator(style, path[0])) == (directory.len() > 0
                && is_separator(style, directory[0]))
        },
{
    let inner = segments(style, path);
    let outer = segments(style, directory);
    if outer.len() <= inner.len() {
        if forall|i: int| 0 <= i < outer.len() ==> #[trigger] inner[i] == outer[i] {
            assert(outer =~= inner.subrange(0, outer.len() as int));
        }
        if outer.is_prefix_of(inner) {
            assert forall|i: int| 0 <= i < outer.len() implies #[trigger] inner[i] == outer[i] by {
                assert(inner.subrange(0, outer.len() as int)[i] == outer[i]);
            }
        }
    }
}

/// A joined path is the directory, a separator unless it ends with one or is
/// empty, and the path.
pub proof fn joining_adds_one_separator(style: PathStyle, directory: Seq<char>, path: Seq<char>)
    ensures
        ({
            let whole = joined_path(style, directory, path);
            let between = whole.len() - directory.len() - path.len();
            &&& whole.take(directory.len() as int) == directory
            &&& whole.skip(whole.len() - path.len()) == path
            &&& between == 0 <==> directory.len() == 0 || is_separator(style, directory.last())
            &&& between != 0 ==> between == 1 && is_separator(
                style,
                whole[directory.len() as int],
            ) && whole[directory.len() as int] == (if style == PathStyle::Unix {
                '/'
            } else {
                '\\'
            })
        }),
{
    let whole = joined_path(style, directory, path);
    assert(whole.take(directory.len() as int) =~= directory);
    assert(whole.skip(whole.len() - path.len()) =~= path);
}

} // verus!
