//! What holds of every use of a tool, whatever the host answers.

use crate::number::decimal;
use crate::path::{
    is_inside, is_plain_name, is_plain_relative, is_rooted, is_separator, joined_path,
    joining_appends_segments, joining_stays_inside, names_are_single_segments, path_of,
    paths_are_cut_at_separators, segments, segments_are_plain_names, separator, PathStyle,
};
use crate::sandbox::{
    action_path, action_tool, call_resumed, call_started, read_only_policy, test_command, tool_name,
    tool_name_reads_back, tool_of, workspace_policy, workspace_root, write_target, CallPhaseView,
    FileReplyView, FileRequestView, PolicyView, SandboxErrorView, Tool, ToolActionView,
    ToolCallView, ToolOutputView, ToolProgressView,
};
use crate::text::{
    byte_size, differs_upwards, joined, order_goes_by_the_first_difference, sorted_texts,
    sorting_keeps_every_text,
};
use vstd::prelude::*;

verus! {

/// A use of a tool after the host has given some answers, and what comes next.
pub open spec fn call_after(
    policy: PolicyView,
    action: ToolActionView,
    trial: bool,
    replies: Seq<FileReplyView>,
) -> (ToolCallView, ToolProgressView)
    decreases replies.len(),
{
    if replies.len() == 0 {
        call_started(policy, action, trial)
    } else {
        call_resumed(
            policy,
            call_after(policy, action, trial, replies.drop_last()).0,
            replies.last(),
        )
    }
}

/// Whether a policy lets a text be written at all.
pub open spec fn may_write(policy: PolicyView, contents: Seq<char>) -> bool {
    &&& policy.allow_write
    &&& policy.max_write_bytes matches Some(limit) ==> byte_size(contents) <= limit
}

/// Whether a request is one that the policy allows an action to make.
pub open spec fn permitted(
    policy: PolicyView,
    action: ToolActionView,
    trial: bool,
    request: FileRequestView,
) -> bool {
    &&& policy.tools.contains(action_tool(action))
    &&& match request {
        FileRequestView::Canonicalize(path) => is_inside(policy.style, path, policy.root),
        FileRequestView::CheckLink(path) => {
            &&& action matches ToolActionView::WriteFile { contents, .. } && may_write(
                policy,
                contents,
            )
            &&& is_inside(policy.style, path, policy.root)
        },
        FileRequestView::ReadText(path) => {
            &&& !trial
            &&& action is ReadFile
            &&& is_inside(policy.style, path, policy.root)
        },
        FileRequestView::WriteText { path, contents } => {
            &&& !trial
            &&& action matches ToolActionView::WriteFile { contents: wanted, .. } && wanted
                == contents
            &&& may_write(policy, contents)
            &&& is_inside(policy.style, path, policy.root)
        },
        FileRequestView::ReadDir(path) => {
            &&& !trial
            &&& action is ListDir
            &&& is_inside(policy.style, path, policy.root)
        },
        FileRequestView::RunTests(command) => {
            &&& !trial
            &&& action is RunTests
            &&& command == test_command(policy)
        },
    }
}

/// What each phase of a use takes for granted.
pub open spec fn call_is_sound(
    policy: PolicyView,
    action: ToolActionView,
    trial: bool,
    call: ToolCallView,
) -> bool {
    &&& call.action == action
    &&& call.trial == trial
    &&& call.phase is Closed || policy.tools.contains(action_tool(action))
    &&& match call.phase {
        CallPhaseView::Resolving => action is ReadFile || action is ListDir,
        CallPhaseView::ResolvingParent(name) => {
            &&& action matches ToolActionView::WriteFile { path, contents } && may_write(
                policy,
                contents,
            ) && name == segments(policy.style, path).last()
            &&& is_plain_name(policy.style, name)
        },
        CallPhaseView::CheckingTarget(target) => {
            &&& action matches ToolActionView::WriteFile { contents, .. } && may_write(
                policy,
                contents,
            )
            &&& is_inside(policy.style, target, policy.root)
        },
        _ => true,
    }
}

proof fn lemma_joined_begins(parts: Seq<Seq<char>>, between: Seq<char>)
    requires
        parts.len() > 0,
        parts[0].len() > 0,
    ensures
        joined(parts, between).len() > 0,
        joined(parts, between)[0] == parts[0][0],
    decreases parts.len(),
{
    if parts.len() > 1 {
        lemma_joined_begins(parts.drop_last(), between);
        let front = joined(parts.drop_last(), between);
        assert((front + between + parts.last())[0] == front[0]);
    }
}

proof fn lemma_inside_itself(style: PathStyle, root: Seq<char>)
    ensures
        is_inside(style, root, root),
{
    let parts = segments(style, root);
    assert(parts.take(parts.len() as int) =~= parts);
}

proof fn lemma_write_target(policy: PolicyView, path: Seq<char>)
    ensures
        match write_target(policy, path) {
            Ok((parent, name)) => {
                &&& is_inside(policy.style, parent, policy.root)
                &&& is_plain_name(policy.style, name)
                &&& name == segments(policy.style, path).last()
            },
            Err(error) => error is Denied,
        },
{
    let style = policy.style;
    let parts = segments(style, path);
    lemma_inside_itself(style, policy.root);
    if is_plain_relative(style, path) && parts.len() > 0 {
        segments_are_plain_names(style, path, parts.len() - 1);
        if parts.len() > 1 {
            segments_are_plain_names(style, path, 0);
            let front = parts.drop_last();
            lemma_joined_begins(front, seq![separator(style)]);
            assert(!is_separator(style, parts[0][0]));
            assert(!is_rooted(style, path_of(style, front)));
            joining_stays_inside(style, policy.root, policy.root, path_of(style, front));
        }
    }
}

/// A use that begins is sound.
pub proof fn lemma_started(policy: PolicyView, action: ToolActionView, trial: bool)
    ensures
        call_is_sound(policy, action, trial, call_started(policy, action, trial).0),
        call_started(policy, action, trial).1 matches ToolProgressView::Ask(request) ==> permitted(
            policy,
            action,
            trial,
            request,
        ),
{
    let style = policy.style;
    let path = action_path(action);
    lemma_inside_itself(style, policy.root);
    if is_plain_relative(style, path) {
        joining_stays_inside(style, policy.root, policy.root, path);
    }
    if action is WriteFile {
        lemma_write_target(policy, path);
    }
}

/// A sound use stays sound, whatever the host answers.
pub proof fn lemma_resumed(
    policy: PolicyView,
    action: ToolActionView,
    trial: bool,
    call: ToolCallView,
    reply: FileReplyView,
)
    requires
        call_is_sound(policy, action, trial, call),
    ensures
        call_is_sound(policy, action, trial, call_resumed(policy, call, reply).0),
        call_resumed(policy, call, reply).1 matches ToolProgressView::Ask(request) ==> permitted(
            policy,
            action,
            trial,
            request,
        ),
{
    match (call.phase, reply) {
        (CallPhaseView::ResolvingParent(name), FileReplyView::Path(Ok(directory))) => {
            if is_inside(policy.style, directory, policy.root) {
                assert(!is_separator(policy.style, name[0]));
                joining_stays_inside(policy.style, policy.root, directory, name);
            }
        },
        _ => {},
    }
}

proof fn lemma_sound(
    policy: PolicyView,
    action: ToolActionView,
    trial: bool,
    replies: Seq<FileReplyView>,
)
    ensures
        call_is_sound(policy, action, trial, call_after(policy, action, trial, replies).0),
        call_after(policy, action, trial, replies).1 matches ToolProgressView::Ask(request)
            ==> permitted(policy, action, trial, request),
    decreases replies.len(),
{
    if replies.len() == 0 {
        lemma_started(policy, action, trial);
    } else {
        lemma_sound(policy, action, trial, replies.drop_last());
        lemma_resumed(
            policy,
            action,
            trial,
            call_after(policy, action, trial, replies.drop_last()).0,
            replies.last(),
        );
    }
}

/// Whatever the host answers, a tool asks only for what the policy permits: the
/// tool is allowed, every path lies in the workspace, nothing is written where
/// writes are disabled or past the size limit, and a trial neither reads, lists,
/// writes nor runs anything.
pub proof fn every_request_is_permitted(
    policy: PolicyView,
    action: ToolActionView,
    trial: bool,
    replies: Seq<FileReplyView>,
)
    ensures
        call_after(policy, action, trial, replies).1 matches ToolProgressView::Ask(request)
            ==> permitted(policy, action, trial, request),
{
    lemma_sound(policy, action, trial, replies);
}

/// A tool that the policy does not allow, or a path that is absolute or goes
/// up, is denied at once: the host is asked nothing.
pub proof fn denials_ask_nothing(policy: PolicyView, action: ToolActionView, trial: bool)
    requires
        !policy.tools.contains(action_tool(action)) || (action !is RunTests && !is_plain_relative(
            policy.style,
            action_path(action),
        )) || (action matches ToolActionView::WriteFile { contents, .. } && !may_write(
            policy,
            contents,
        )),
    ensures
        call_started(policy, action, trial).1 matches ToolProgressView::Done(Err(error)) && error
            is Denied,
{
}

/// A path that the host resolves to a place outside the workspace is denied.
pub proof fn escapes_are_denied(
    policy: PolicyView,
    action: ToolActionView,
    trial: bool,
    replies: Seq<FileReplyView>,
    resolved: Seq<char>,
)
    requires
        call_after(policy, action, trial, replies).1 matches ToolProgressView::Ask(request)
            && request is Canonicalize,
        !is_inside(policy.style, resolved, policy.root),
    ensures
        call_after(policy, action, trial, replies.push(FileReplyView::Path(Ok(resolved)))).1
            matches ToolProgressView::Done(Err(error)) && error is Denied,
{
    lemma_sound(policy, action, trial, replies);
    lemma_steps(policy, action, trial, replies);
    lemma_asked(policy, action, trial, replies);
    assert(replies.push(FileReplyView::Path(Ok(resolved))).drop_last() =~= replies);
}

/// A write to a name that a link has is denied.
pub proof fn links_are_not_written(
    policy: PolicyView,
    action: ToolActionView,
    trial: bool,
    replies: Seq<FileReplyView>,
)
    requires
        call_after(policy, action, trial, replies).1 matches ToolProgressView::Ask(request)
            && request is CheckLink,
    ensures
        call_after(policy, action, trial, replies.push(FileReplyView::Link(true))).1 matches
            ToolProgressView::Done(Err(error)) && error is Denied && error->rule
            == "write target is a symbolic link"@,
{
    lemma_asked(policy, action, trial, replies);
    assert(replies.push(FileReplyView::Link(true)).drop_last() =~= replies);
}

/// The phase of a use goes with what it asks for.
proof fn lemma_asked(
    policy: PolicyView,
    action: ToolActionView,
    trial: bool,
    replies: Seq<FileReplyView>,
)
    ensures
        ({
            let (call, progress) = call_after(policy, action, trial, replies);
            progress matches ToolProgressView::Ask(request) ==> {
                &&& request is Canonicalize <==> call.phase is Resolving || call.phase
                    is ResolvingParent
                &&& request is CheckLink <==> call.phase is CheckingTarget
            }
        }),
    decreases replies.len(),
{
    if replies.len() > 0 {
        lemma_asked(policy, action, trial, replies.drop_last());
    }
}

/// A file is written only below a directory that the host resolved into the
/// workspace, under the last name of the path that was asked for, and only
/// after the host said that no link has that name.
pub proof fn writes_go_to_resolved_files(
    policy: PolicyView,
    path: Seq<char>,
    contents: Seq<char>,
    replies: Seq<FileReplyView>,
    target: Seq<char>,
    written: Seq<char>,
)
    requires
        call_after(policy, ToolActionView::WriteFile { path, contents }, false, replies).1
            == ToolProgressView::Ask(
            FileRequestView::WriteText { path: target, contents: written },
        ),
    ensures
        written == contents,
        replies.len() == 2,
        replies[1] == FileReplyView::Link(false),
        replies[0] matches FileReplyView::Path(Ok(directory)) && is_inside(
            policy.style,
            directory,
            policy.root,
        ) && target == joined_path(policy.style, directory, segments(policy.style, path).last()),
        is_plain_name(policy.style, segments(policy.style, path).last()),
        call_after(
            policy,
            ToolActionView::WriteFile { path, contents },
            false,
            replies.drop_last(),
        ).1 == ToolProgressView::Ask(FileRequestView::CheckLink(target)),
{
    let action = ToolActionView::WriteFile { path, contents };
    lemma_write_target(policy, path);
    lemma_steps(policy, action, false, replies);
    let front = replies.drop_last();
    if replies.len() > 0 && front.len() > 0 {
        assert(front.drop_last().len() == replies.len() - 2);
        lemma_steps(policy, action, false, front);
        lemma_steps(policy, action, false, front.drop_last());
        assert(front.last() == replies[replies.len() - 2]);
        if front.drop_last().len() > 0 {
            lemma_steps(policy, action, false, front.drop_last().drop_last());
        }
    }
}

/// How many answers lead to a phase.
spec fn phase_matches(call: ToolCallView, answers: nat) -> bool {
    match call.phase {
        CallPhaseView::Resolving => answers == 0,
        CallPhaseView::ResolvingParent(_) => answers == 0,
        CallPhaseView::Testing => answers == 0,
        CallPhaseView::Reading => answers == 1,
        CallPhaseView::Listing => answers == 1,
        CallPhaseView::CheckingTarget(_) => answers == 1,
        CallPhaseView::Writing => answers == 2,
        CallPhaseView::Closed => true,
    }
}

proof fn lemma_steps(
    policy: PolicyView,
    action: ToolActionView,
    trial: bool,
    replies: Seq<FileReplyView>,
)
    ensures
        phase_matches(call_after(policy, action, trial, replies).0, replies.len()),
        call_after(policy, action, trial, replies).1 is Done <==> call_after(
            policy,
            action,
            trial,
            replies,
        ).0.phase is Closed,
        call_after(policy, action, trial, replies).0.action == action,
        call_after(policy, action, trial, replies).0.trial == trial,
    decreases replies.len(),
{
    if replies.len() > 0 {
        lemma_steps(policy, action, trial, replies.drop_last());
    }
}

/// The use of a tool comes to an end after at most three answers of the host.
pub proof fn tool_use_ends(
    policy: PolicyView,
    action: ToolActionView,
    trial: bool,
    replies: Seq<FileReplyView>,
)
    requires
        replies.len() >= 3,
    ensures
        call_after(policy, action, trial, replies).1 is Done,
{
    lemma_steps(policy, action, trial, replies);
}

// What tools give

/// Whether a phase is the one in which a request is made that is the last of
/// its use.
spec fn ends_with(phase: CallPhaseView, request: FileRequestView) -> bool {
    match request {
        FileRequestView::ReadText(_) => phase is Reading,
        FileRequestView::ReadDir(_) => phase is Listing,
        FileRequestView::WriteText { .. } => phase is Writing,
        FileRequestView::RunTests(_) => phase is Testing,
        _ => true,
    }
}

proof fn lemma_last_request(
    policy: PolicyView,
    action: ToolActionView,
    trial: bool,
    replies: Seq<FileReplyView>,
)
    ensures
        call_after(policy, action, trial, replies).1 matches ToolProgressView::Ask(request)
            ==> ends_with(call_after(policy, action, trial, replies).0.phase, request),
    decreases replies.len(),
{
    if replies.len() > 0 {
        lemma_last_request(policy, action, trial, replies.drop_last());
    }
}

/// A tool begins to ask exactly if the policy allows it: the tool is allowed,
/// its path is plain and relative, and a write is allowed, is not too large and
/// names a file. Trying tests asks nothing, since there is nothing to look at.
pub proof fn allowed_uses_begin(policy: PolicyView, action: ToolActionView, trial: bool)
    ensures
        call_started(policy, action, trial).1 is Ask <==> {
            &&& policy.tools.contains(action_tool(action))
            &&& match action {
                ToolActionView::RunTests => !trial,
                ToolActionView::ReadFile(path) => is_plain_relative(policy.style, path),
                ToolActionView::ListDir(path) => is_plain_relative(policy.style, path),
                ToolActionView::WriteFile { path, contents } => {
                    &&& is_plain_relative(policy.style, path)
                    &&& policy.allow_write
                    &&& policy.max_write_bytes is Some ==> byte_size(contents)
                        <= policy.max_write_bytes->0
                    &&& segments(policy.style, path).len() > 0
                },
            }
        },
        call_started(policy, action, trial).1 matches ToolProgressView::Done(result) ==> {
            ||| result matches Err(SandboxErrorView::Denied { .. })
            ||| action is RunTests && trial && policy.tools.contains(Tool::RunTests) && result
                == Ok::<ToolOutputView, SandboxErrorView>(ToolOutputView::Checked)
        },
{
}

/// What the tools are for which actions.
pub proof fn actions_use_their_tools(path: Seq<char>, contents: Seq<char>)
    ensures
        action_tool(ToolActionView::ReadFile(path)) == Tool::ReadFile,
        action_tool(ToolActionView::WriteFile { path, contents }) == Tool::WriteFile,
        action_tool(ToolActionView::ListDir(path)) == Tool::ListDir,
        action_tool(ToolActionView::RunTests) == Tool::RunTests,
        action_path(ToolActionView::ReadFile(path)) == path,
        action_path(ToolActionView::WriteFile { path, contents }) == path,
        action_path(ToolActionView::ListDir(path)) == path,
{
}

/// A file that may be read is looked for below the workspace, and it is read
/// where the host finds it, if that is in the workspace. The same holds of a
/// directory that is listed.
pub proof fn reads_follow_the_path(
    policy: PolicyView,
    path: Seq<char>,
    found: Result<Seq<char>, Seq<char>>,
)
    requires
        is_plain_relative(policy.style, path),
    ensures
        ({
            let read = ToolActionView::ReadFile(path);
            let list = ToolActionView::ListDir(path);
            let none = Seq::<FileReplyView>::empty();
            let one = seq![FileReplyView::Path(found)];
            let asked = ToolProgressView::Ask(
                FileRequestView::Canonicalize(joined_path(policy.style, policy.root, path)),
            );
            &&& policy.tools.contains(Tool::ReadFile) ==> {
                &&& call_after(policy, read, false, none).1 == asked
                &&& call_after(policy, read, false, one).1 == match found {
                    Err(message) => ToolProgressView::Done(Err(SandboxErrorView::Io(message))),
                    Ok(place) => if is_inside(policy.style, place, policy.root) {
                        ToolProgressView::Ask(FileRequestView::ReadText(place))
                    } else {
                        call_after(policy, read, false, one).1
                    },
                }
            }
            &&& policy.tools.contains(Tool::ListDir) ==> {
                &&& call_after(policy, list, false, none).1 == asked
                &&& call_after(policy, list, false, one).1 == match found {
                    Err(message) => ToolProgressView::Done(Err(SandboxErrorView::Io(message))),
                    Ok(place) => if is_inside(policy.style, place, policy.root) {
                        ToolProgressView::Ask(FileRequestView::ReadDir(place))
                    } else {
                        call_after(policy, list, false, one).1
                    },
                }
            }
        }),
{
    let one = seq![FileReplyView::Path(found)];
    assert(one.drop_last() =~= Seq::<FileReplyView>::empty());
    reveal_with_fuel(call_after, 2);
}

/// A write goes to the directory of its path and to the last name of it: the
/// host is asked for the directory, then whether a link has the name, and then
/// to write exactly what was given.
pub proof fn writes_follow_the_path(
    policy: PolicyView,
    path: Seq<char>,
    contents: Seq<char>,
    directory: Seq<char>,
)
    requires
        policy.tools.contains(Tool::WriteFile),
        may_write(policy, contents),
        is_plain_relative(policy.style, path),
        segments(policy.style, path).len() > 0,
        is_inside(policy.style, directory, policy.root),
    ensures
        ({
            let write = ToolActionView::WriteFile { path, contents };
            let names = segments(policy.style, path);
            let file = joined_path(policy.style, directory, names.last());
            let one = seq![FileReplyView::Path(Ok(directory))];
            let two = one.push(FileReplyView::Link(false));
            &&& call_after(policy, write, false, Seq::empty()).1 matches ToolProgressView::Ask(
                FileRequestView::Canonicalize(parent),
            ) && segments(policy.style, parent) == segments(policy.style, policy.root)
                + names.drop_last()
            &&& call_after(policy, write, false, one).1 == ToolProgressView::Ask(
                FileRequestView::CheckLink(file),
            )
            &&& call_after(policy, write, false, two).1 == ToolProgressView::Ask(
                FileRequestView::WriteText { path: file, contents },
            )
            &&& call_after(policy, write, true, two).1 == ToolProgressView::Done(
                Ok(ToolOutputView::Checked),
            )
        }),
{
    let write = ToolActionView::WriteFile { path, contents };
    let style = policy.style;
    let names = segments(style, path);
    let one = seq![FileReplyView::Path(Ok(directory))];
    let two = one.push(FileReplyView::Link(false));
    assert(one.drop_last() =~= Seq::<FileReplyView>::empty());
    assert(two.drop_last() =~= one);
    reveal_with_fuel(call_after, 3);
    if names.len() == 1 {
        assert(names.drop_last() =~= Seq::<Seq<char>>::empty());
        assert(segments(style, policy.root) + names.drop_last() =~= segments(style, policy.root));
    } else {
        let front = names.drop_last();
        joining_appends_segments(style, policy.root, path_of(style, front));
        lemma_names_again(style, path, names.len() - 1);
        assert(names.take(names.len() - 1) =~= front);
    }
}

proof fn lemma_names_again(style: PathStyle, path: Seq<char>, count: int)
    requires
        is_plain_relative(style, path),
        0 < count <= segments(style, path).len(),
    ensures
        segments(style, path_of(style, segments(style, path).take(count))) == segments(
            style,
            path,
        ).take(count),
    decreases count,
{
    let names = segments(style, path);
    let part = names.take(count);
    let name = names[count - 1];
    segments_are_plain_names(style, path, count - 1);
    names_are_single_segments(style, name);
    assert(part.last() == name);
    if count == 1 {
        assert(part =~= seq![name]);
    } else {
        lemma_names_again(style, path, count - 1);
        assert(part.drop_last() =~= names.take(count - 1));
        let front = path_of(style, part.drop_last());
        assert(path_of(style, part) =~= front.push(separator(style)) + name);
        paths_are_cut_at_separators(style, front, separator(style), name);
        assert(part =~= part.drop_last() + seq![name]);
    }
}

/// A tool gives what the host found, all of it and nothing else: a file's text
/// as it is, every entry of a directory in the order of their names, whether the
/// tests passed, and how many bytes were written. What the host could not do is
/// told.
pub proof fn tools_give_what_was_found(
    policy: PolicyView,
    action: ToolActionView,
    trial: bool,
    replies: Seq<FileReplyView>,
    message: Seq<char>,
)
    requires
        call_after(policy, action, trial, replies).1 is Ask,
    ensures
        ({
            let told = ToolProgressView::Done(Err(SandboxErrorView::Io(message)));
            let give = |reply: FileReplyView|
                call_after(policy, action, trial, replies.push(reply)).1;
            match call_after(policy, action, trial, replies).1->Ask_0 {
                FileRequestView::ReadText(_) => {
                    &&& forall|text: Seq<char>|
                        #[trigger] give(FileReplyView::Text(Ok(text))) == ToolProgressView::Done(
                            Ok(ToolOutputView::Contents(text)),
                        )
                    &&& give(FileReplyView::Text(Err(message))) == told
                },
                FileRequestView::ReadDir(_) => {
                    &&& forall|names: Seq<Seq<char>>|
                        lists(#[trigger] give(FileReplyView::Entries(Ok(names))), names)
                    &&& give(FileReplyView::Entries(Err(message))) == told
                },
                FileRequestView::WriteText { contents, .. } => {
                    &&& give(FileReplyView::Written(Ok(()))) == ToolProgressView::Done(
                        Ok(ToolOutputView::Wrote(byte_size(contents))),
                    )
                    &&& give(FileReplyView::Written(Err(message))) == told
                },
                FileRequestView::RunTests(_) => {
                    &&& forall|passed: bool|
                        #[trigger] give(FileReplyView::Tests(Ok(passed))) == ToolProgressView::Done(
                            Ok(ToolOutputView::Tests(passed)),
                        )
                    &&& give(FileReplyView::Tests(Err(message))) == told
                },
                _ => true,
            }
        }),
{
    let give = |reply: FileReplyView| call_after(policy, action, trial, replies.push(reply)).1;
    let (call, progress) = call_after(policy, action, trial, replies);
    lemma_last_request(policy, action, trial, replies);
    lemma_sound(policy, action, trial, replies);
    lemma_steps(policy, action, trial, replies);
    assert forall|reply: FileReplyView|
        #[trigger] give(reply) == call_resumed(policy, call, reply).1 by {
        assert(replies.push(reply).drop_last() =~= replies);
    }
    if progress->Ask_0 is ReadDir {
        assert forall|names: Seq<Seq<char>>|
            lists(#[trigger] give(FileReplyView::Entries(Ok(names))), names) by {
            sorting_keeps_every_text(names);
            let entries = sorted_texts(names);
            vstd::seq_lib::to_multiset_len(entries);
            vstd::seq_lib::to_multiset_len(names);
            assert forall|i: int, j: int| 0 <= i < j < entries.len() implies (
            #[trigger] entries[i]).is_prefix_of(#[trigger] entries[j]) || differs_upwards(
                entries[i],
                entries[j],
            ) by {
                order_goes_by_the_first_difference(entries[i], entries[j]);
            }
        }
    }
}

/// Whether a use ended with each of some names, as often as it is there, in
/// their order.
pub open spec fn lists(progress: ToolProgressView, names: Seq<Seq<char>>) -> bool {
    progress matches ToolProgressView::Done(Ok(ToolOutputView::Entries(entries))) && {
        &&& entries.to_multiset() == names.to_multiset()
        &&& entries.len() == names.len()
        &&& forall|i: int, j: int|
            0 <= i < j < entries.len() ==> (#[trigger] entries[i]).is_prefix_of(
                #[trigger] entries[j],
            ) || differs_upwards(entries[i], entries[j])
    }
}

/// What the policies allow: a workspace allows every tool, a read-only one every
/// tool but writing; neither has a limit of its own.
pub proof fn policies_allow_their_tools(root: Seq<char>, style: PathStyle, tool: Tool)
    ensures
        workspace_policy(root, style).tools.contains(tool),
        workspace_policy(root, style).allow_write,
        workspace_policy(root, style).max_write_bytes is None,
        workspace_policy(root, style).root == root,
        workspace_policy(root, style).style == style,
        read_only_policy(root, style).tools.contains(tool) <==> tool != Tool::WriteFile,
        !read_only_policy(root, style).allow_write,
        read_only_policy(root, style).root == root,
        read_only_policy(root, style).style == style,
{
}

/// A workspace is opened exactly where the host finds a directory, and it is the
/// place that the host found.
pub proof fn workspaces_are_directories(found: Result<Seq<char>, Seq<char>>, is_directory: bool)
    ensures
        workspace_root(found, is_directory) is Ok <==> found is Ok && is_directory,
        workspace_root(found, is_directory) matches Ok(root) ==> found == Ok::<
            Seq<char>,
            Seq<char>,
        >(root),
        found matches Err(message) ==> workspace_root(found, is_directory) == Err::<
            Seq<char>,
            SandboxErrorView,
        >(SandboxErrorView::Io(message)),
{
}

/// A denial tells the path that was attempted. A path that is found outside the
/// workspace is denied with the path that was asked for, not with the one that
/// was found.
pub proof fn denials_tell_the_path(
    policy: PolicyView,
    action: ToolActionView,
    trial: bool,
    replies: Seq<FileReplyView>,
)
    ensures
        call_after(policy, action, trial, replies).1 matches ToolProgressView::Done(
            Err(SandboxErrorView::Denied { attempted, .. }),
        ) ==> match action {
            ToolActionView::ReadFile(path) => attempted == path,
            ToolActionView::ListDir(path) => attempted == path,
            ToolActionView::WriteFile { path, .. } => attempted == path || segments(
                policy.style,
                path,
            ).len() == 0,
            ToolActionView::RunTests => attempted == "."@,
        },
    decreases replies.len(),
{
    if replies.len() > 0 {
        denials_tell_the_path(policy, action, trial, replies.drop_last());
        lemma_steps(policy, action, trial, replies.drop_last());
    }
}

/// The tools have names of their own.
pub proof fn tools_have_their_names(name: Seq<char>, tool: Tool)
    ensures
        tool_name(Tool::ReadFile) == "read_file"@,
        tool_name(Tool::WriteFile) == "write_file"@,
        tool_name(Tool::ListDir) == "list_dir"@,
        tool_name(Tool::RunTests) == "run_tests"@,
        tool_of(name) == Some(tool) <==> name == tool_name(tool),
{
    tool_name_reads_back(tool);
}

/// How the tests of a workspace are run: without a network, in the workspace and
/// with its own place for what is built, without the keys of the services, and
/// for no longer than two minutes.
pub proof fn tests_run_apart(policy: PolicyView)
    ensures
        ({
            let command = test_command(policy);
            &&& command.program == "cargo"@
            &&& command.arguments == seq!["test"@, "--offline"@]
            &&& command.directory == policy.root
            &&& is_inside(policy.style, command.target_directory, policy.root)
            &&& segments(policy.style, command.target_directory) == segments(
                policy.style,
                policy.root,
            ) + seq![".agentrt-target"@]
            &&& command.removed_variables.contains("GEMINI_API_KEY"@)
            &&& command.removed_variables.contains("OPENAI_API_KEY"@)
            &&& command.timeout_ms == 120000
        }),
{
    let name = ".agentrt-target"@;
    reveal_strlit(".agentrt-target");
    reveal_strlit(".");
    assert(name.len() == 15);
    assert forall|i: int| 0 <= i < name.len() implies !is_separator(
        policy.style,
        #[trigger] name[i],
    ) by {}
    names_are_single_segments(policy.style, name);
    joining_appends_segments(policy.style, policy.root, name);
    lemma_inside_itself(policy.style, policy.root);
    assert(!is_rooted(policy.style, name));
    joining_stays_inside(policy.style, policy.root, policy.root, name);
    let removed = test_command(policy).removed_variables;
    assert(removed[0] == "GEMINI_API_KEY"@ && removed[1] == "OPENAI_API_KEY"@);
}

/// Why a use is denied before the host is asked: the tool comes first, then for a
/// write whether it is allowed and how large it is, and then the path.
pub proof fn denials_tell_their_rule(policy: PolicyView, action: ToolActionView, trial: bool)
    ensures
        call_started(policy, action, trial).1 matches ToolProgressView::Done(
            Err(SandboxErrorView::Denied { rule, .. }),
        ) ==> if !policy.tools.contains(action_tool(action)) {
            rule == "tool `"@ + tool_name(action_tool(action)) + "` is not allowed"@
        } else if action is WriteFile && !policy.allow_write {
            rule == "writes are disabled by policy"@
        } else if action is WriteFile && policy.max_write_bytes is Some
            && policy.max_write_bytes->0 < byte_size(action->WriteFile_contents) {
            rule == "write of "@ + decimal(byte_size(action->WriteFile_contents))
                + " bytes exceeds the limit of "@ + decimal(policy.max_write_bytes->0) + " bytes"@
        } else if !is_plain_relative(policy.style, action_path(action)) {
            rule == "only relative paths without `..` are allowed"@
        } else if segments(policy.style, policy.root).len() > 0 {
            rule == "path escapes workspace root"@
        } else {
            rule == "write target must name a file"@
        },
{
}

/// A read or a listing that is only tried ends with the place that the host
/// found: it is in order if that lies in the workspace.
pub proof fn trials_end_with_the_place(
    policy: PolicyView,
    path: Seq<char>,
    place: Seq<char>,
)
    requires
        is_plain_relative(policy.style, path),
        policy.tools.contains(Tool::ReadFile),
        policy.tools.contains(Tool::ListDir),
    ensures
        ({
            let one = seq![FileReplyView::Path(Ok(place))];
            let read = call_after(policy, ToolActionView::ReadFile(path), true, one).1;
            let list = call_after(policy, ToolActionView::ListDir(path), true, one).1;
            &&& read == list
            &&& read == ToolProgressView::Done(
                if is_inside(policy.style, place, policy.root) {
                    Ok(ToolOutputView::Checked)
                } else {
                    Err(
                        SandboxErrorView::Denied {
                            rule: "path escapes workspace root"@,
                            attempted: path,
                        },
                    )
                },
            )
        }),
{
    let one = seq![FileReplyView::Path(Ok(place))];
    assert(one.drop_last() =~= Seq::<FileReplyView>::empty());
    reveal_with_fuel(call_after, 2);
}

} // verus!
