//! Work on the system, as lists of operations that stop at the first one that
//! fails.

use crate::error::{AppError, AppErrorView};
use crate::text;
use vstd::prelude::*;

verus! {

/// One operation on the system.
pub enum Op {
    /// Create a directory and those above it.
    CreateDirAll { path: String },
    /// Replace what a file holds.
    Write { path: String, contents: String },
    /// Remove an empty directory, if it is there.
    RemoveDir { path: String },
    /// Remove a directory and all in it, if it is there.
    RemoveDirAll { path: String },
    /// Remove a file, if it is there.
    RemoveFile { path: String },
    /// Remove a file; it does not matter if that fails.
    Discard { path: String },
    /// Mount an overlay file system.
    MountOverlay { target: String, options: String },
    /// Unmount a file system lazily; it does not matter if that fails.
    Detach { target: String },
    /// Run a command that has to succeed. If it does not, `complaint` says so,
    /// or, where there is none, the command line.
    Run { bin: String, args: Vec<String>, complaint: Option<String> },
    /// Run a command to see whether it succeeds. If it does, leave out the next
    /// `skip` operations.
    Probe { bin: String, args: Vec<String>, skip: usize },
    /// Close a file descriptor; it does not matter if that fails.
    CloseFd { fd: i32 },
    /// Write one byte; it does not matter if that fails.
    Notify { fd: i32 },
    /// Read one byte; it does not matter if that fails.
    Wait { fd: i32 },
    /// Leave the PID, UTS, mount and network namespaces for new ones.
    Unshare,
    /// Set the host name.
    SetHostname { name: String },
    /// Start a session; it does not matter if that fails.
    NewSession,
    /// Make a terminal the controlling one; it does not matter if that fails.
    ControllingTerminal { fd: i32 },
    /// Make `onto` a copy of `fd`; it does not matter if that fails.
    Duplicate { fd: i32, onto: i32 },
    /// Mount the process file system.
    MountProc { target: String },
    /// Mount `/dev`, with what is mounted below it, a second time.
    BindDevices { target: String },
    /// Change the root directory.
    ChangeRoot { path: String },
    /// Change the working directory.
    ChangeDir { path: String },
    /// Become another program.
    Exec { argv: Vec<String> },
}

#[verifier::ext_equal]
pub enum OpView {
    CreateDirAll { path: Seq<char> },
    Write { path: Seq<char>, contents: Seq<char> },
    RemoveDir { path: Seq<char> },
    RemoveDirAll { path: Seq<char> },
    RemoveFile { path: Seq<char> },
    Discard { path: Seq<char> },
    MountOverlay { target: Seq<char>, options: Seq<char> },
    Detach { target: Seq<char> },
    Run { bin: Seq<char>, args: Seq<Seq<char>>, complaint: Option<Seq<char>> },
    Probe { bin: Seq<char>, args: Seq<Seq<char>>, skip: nat },
    CloseFd { fd: i32 },
    Notify { fd: i32 },
    Wait { fd: i32 },
    Unshare,
    SetHostname { name: Seq<char> },
    NewSession,
    ControllingTerminal { fd: i32 },
    Duplicate { fd: i32, onto: i32 },
    MountProc { target: Seq<char> },
    BindDevices { target: Seq<char> },
    ChangeRoot { path: Seq<char> },
    ChangeDir { path: Seq<char> },
    Exec { argv: Seq<Seq<char>> },
}

impl View for Op {
    type V = OpView;

    open spec fn view(&self) -> OpView {
        match self {
            Op::CreateDirAll { path } => OpView::CreateDirAll { path: path@ },
            Op::Write { path, contents } => OpView::Write { path: path@, contents: contents@ },
            Op::RemoveDir { path } => OpView::RemoveDir { path: path@ },
            Op::RemoveDirAll { path } => OpView::RemoveDirAll { path: path@ },
            Op::RemoveFile { path } => OpView::RemoveFile { path: path@ },
            Op::Discard { path } => OpView::Discard { path: path@ },
            Op::MountOverlay { target, options } => OpView::MountOverlay { target: target@, options: options@ },
            Op::Detach { target } => OpView::Detach { target: target@ },
            Op::Run { bin, args, complaint } => OpView::Run { bin: bin@, args: args.deep_view(), complaint: complaint.deep_view() },
            Op::Probe { bin, args, skip } => OpView::Probe { bin: bin@, args: args.deep_view(), skip: *skip as nat },
            Op::CloseFd { fd } => OpView::CloseFd { fd: *fd },
            Op::Notify { fd } => OpView::Notify { fd: *fd },
            Op::Wait { fd } => OpView::Wait { fd: *fd },
            Op::Unshare => OpView::Unshare,
            Op::SetHostname { name } => OpView::SetHostname { name: name@ },
            Op::NewSession => OpView::NewSession,
            Op::ControllingTerminal { fd } => OpView::ControllingTerminal { fd: *fd },
            Op::Duplicate { fd, onto } => OpView::Duplicate { fd: *fd, onto: *onto },
            Op::MountProc { target } => OpView::MountProc { target: target@ },
            Op::BindDevices { target } => OpView::BindDevices { target: target@ },
            Op::ChangeRoot { path } => OpView::ChangeRoot { path: path@ },
            Op::ChangeDir { path } => OpView::ChangeDir { path: path@ },
            Op::Exec { argv } => OpView::Exec { argv: argv.deep_view() },
        }
    }
}

impl DeepView for Op {
    type V = OpView;

    open spec fn deep_view(&self) -> OpView {
        self@
    }
}

/// What came of an operation.
pub enum Outcome {
    /// It was carried out.
    Done,
    /// The command ran and reported failure.
    Refused,
    /// It could not be carried out.
    Failed(AppError),
}

#[verifier::ext_equal]
pub enum OutcomeView {
    Done,
    Refused,
    Failed(AppErrorView),
}

impl View for Outcome {
    type V = OutcomeView;

    open spec fn view(&self) -> OutcomeView {
        match self {
            Outcome::Done => OutcomeView::Done,
            Outcome::Refused => OutcomeView::Refused,
            Outcome::Failed(error) => OutcomeView::Failed(error@),
        }
    }
}

/// The operations whose failure does not matter.
pub open spec fn is_tolerant(op: OpView) -> bool {
    match op {
        OpView::Discard { .. } => true,
        OpView::Detach { .. } => true,
        OpView::Probe { .. } => true,
        OpView::CloseFd { .. } => true,
        OpView::Notify { .. } => true,
        OpView::Wait { .. } => true,
        OpView::NewSession => true,
        OpView::ControllingTerminal { .. } => true,
        OpView::Duplicate { .. } => true,
        _ => false,
    }
}

/// The text that shows a list of words, each in quotes and with its special
/// characters escaped, as `{:?}` writes it.
pub uninterp spec fn debug_text(words: Seq<Seq<char>>) -> Seq<char>;

/// What is said of a command that reported failure.
pub open spec fn complaint_of(
    bin: Seq<char>,
    args: Seq<Seq<char>>,
    complaint: Option<Seq<char>>,
) -> Seq<char> {
    match complaint {
        Some(text) => text,
        None => "命令失败: "@ + bin + " "@ + debug_text(args),
    }
}

/// Where a list of operations goes on after the operation at `at`, or the
/// error with which it ends there.
pub open spec fn next(op: OpView, at: nat, outcome: OutcomeView) -> Result<nat, AppErrorView> {
    match outcome {
        OutcomeView::Done => match op {
            OpView::Probe { skip, .. } => Ok(at + 1 + skip),
            _ => Ok(at + 1),
        },
        OutcomeView::Refused => match op {
            OpView::Run { bin, args, complaint } => Err(
                AppErrorView::Io(complaint_of(bin, args, complaint)),
            ),
            _ => Ok(at + 1),
        },
        OutcomeView::Failed(error) => if is_tolerant(op) {
            Ok(at + 1)
        } else {
            Err(error)
        },
    }
}

/// No probe leaves out more operations than there are.
pub open spec fn well_formed(script: Seq<OpView>) -> bool {
    forall|i: int|
        0 <= i < script.len() ==> (match #[trigger] script[i] {
            OpView::Probe { skip, .. } => i + 1 + skip <= script.len(),
            _ => true,
        })
}

/// Writes a list of words as the `{:?}` of `core::fmt` shows it. Nothing is
/// claimed of the text but that the words determine it.
#[verifier::external_body]
fn debug_words(words: &Vec<String>) -> (text: String)
    ensures
        text@ == debug_text(words.deep_view()),
{
    format!("{:?}", words)
}

fn tolerates(op: &Op) -> (tolerates: bool)
    ensures
        tolerates == is_tolerant(op@),
{
    match op {
        Op::Discard { .. } => true,
        Op::Detach { .. } => true,
        Op::Probe { .. } => true,
        Op::CloseFd { .. } => true,
        Op::Notify { .. } => true,
        Op::Wait { .. } => true,
        Op::NewSession => true,
        Op::ControllingTerminal { .. } => true,
        Op::Duplicate { .. } => true,
        _ => false,
    }
}

/// What is said of a command that reported failure, given how its arguments
/// are shown.
pub fn complaint(bin: &str, shown_args: &str) -> (text: String)
    ensures
        text@ == "命令失败: "@ + bin@ + " "@ + shown_args@,
{
    let mut text = text::join("命令失败: ", bin);
    text.append(" ");
    text.append(shown_args);
    text
}

/// Where a list of operations goes on after the operation at `at`, or the
/// error with which it ends there.
pub fn advance(script: &Vec<Op>, at: usize, outcome: Outcome) -> (step: Result<usize, AppError>)
    requires
        at < script.len(),
        well_formed(script.deep_view()),
    ensures
        match step {
            Ok(to) => next(script[at as int]@, at as nat, outcome@) == Ok::<nat, AppErrorView>(
                to as nat,
            ) && at < to <= script.len(),
            Err(error) => next(script[at as int]@, at as nat, outcome@) == Err::<
                nat,
                AppErrorView,
            >(error@),
        },
{
    assert(script.deep_view()[at as int] == script[at as int]@);
    match outcome {
        Outcome::Done => match &script[at] {
            Op::Probe { skip, .. } => Ok(at + 1 + *skip),
            _ => Ok(at + 1),
        },
        Outcome::Refused => match &script[at] {
            Op::Run { bin, args, complaint: said } => match said {
                Some(text) => Err(AppError::Io(text.clone())),
                None => Err(
                    AppError::Io(complaint(bin.as_str(), debug_words(args).as_str())),
                ),
            },
            _ => Ok(at + 1),
        },
        Outcome::Failed(error) => if tolerates(&script[at]) {
            Ok(at + 1)
        } else {
            Err(error)
        },
    }
}

/// The indices of the operations that are carried out from `at` on, when they
/// have the given outcomes, one after the other.
pub open spec fn trace(script: Seq<OpView>, at: nat, outcomes: Seq<OutcomeView>) -> Seq<nat>
    decreases outcomes.len(),
{
    if at >= script.len() || outcomes.len() == 0 {
        seq![]
    } else {
        match next(script[at as int], at, outcomes[0]) {
            Ok(to) => seq![at] + trace(script, to, outcomes.drop_first()),
            Err(_) => seq![at],
        }
    }
}

/// How a list of operations ends from `at` on, when they have the given
/// outcomes, one after the other; nothing if it has not ended by then.
pub open spec fn ending(script: Seq<OpView>, at: nat, outcomes: Seq<OutcomeView>) -> Option<
    Result<(), AppErrorView>,
>
    decreases outcomes.len(),
{
    if at >= script.len() {
        Some(Ok(()))
    } else if outcomes.len() == 0 {
        None
    } else {
        match next(script[at as int], at, outcomes[0]) {
            Ok(to) => ending(script, to, outcomes.drop_first()),
            Err(error) => Some(Err(error)),
        }
    }
}

/// Whether the operation at `i` is left out because a probe before it, among
/// the operations of `steps`, succeeded.
pub open spec fn is_left_out(
    script: Seq<OpView>,
    steps: Seq<nat>,
    outcomes: Seq<OutcomeView>,
    i: nat,
) -> bool {
    exists|p: int|
        0 <= p < steps.len() && outcomes[p] is Done && (match script[(#[trigger] steps[p]) as int] {
            OpView::Probe { skip, .. } => steps[p] < i <= steps[p] + skip,
            _ => false,
        })
}

/// No more operations are carried out than there are outcomes, and all of them
/// stand in the list at or after `at`.
pub proof fn trace_is_bounded(script: Seq<OpView>, at: nat, outcomes: Seq<OutcomeView>)
    ensures
        trace(script, at, outcomes).len() <= outcomes.len(),
        forall|p: int|
            0 <= p < trace(script, at, outcomes).len() ==> at <= #[trigger] trace(
                script,
                at,
                outcomes,
            )[p] < script.len(),
    decreases outcomes.len(),
{
    if at < script.len() && outcomes.len() > 0 {
        if let Ok(to) = next(script[at as int], at, outcomes[0]) {
            trace_is_bounded(script, to, outcomes.drop_first());
            let tail = trace(script, to, outcomes.drop_first());
            let steps = trace(script, at, outcomes);
            assert forall|p: int| 0 <= p < steps.len() implies at <= #[trigger] steps[p]
                < script.len() by {
                if p > 0 {
                    assert(steps[p] == tail[p - 1]);
                }
            }
        }
    }
}

/// An operation is reached only over operations that let the list go on, and
/// over none that should have been carried out and was not: for every
/// operation that comes before one that is carried out, either it is carried
/// out, and does not end the list, or a probe that succeeded leaves it out.
pub proof fn steps_are_reached_in_order(
    script: Seq<OpView>,
    at: nat,
    outcomes: Seq<OutcomeView>,
    reached: int,
    i: nat,
)
    requires
        well_formed(script),
        0 <= reached < trace(script, at, outcomes).len(),
        at <= i < trace(script, at, outcomes)[reached],
    ensures
        ({
            let steps = trace(script, at, outcomes);
            ||| exists|p: int|
                0 <= p < reached && #[trigger] steps[p] == i && next(
                    script[i as int],
                    i,
                    outcomes[p],
                ) is Ok
            ||| is_left_out(script, steps, outcomes, i)
        }),
    decreases outcomes.len(),
{
    let steps = trace(script, at, outcomes);
    assert(steps[0] == at);
    match next(script[at as int], at, outcomes[0]) {
        Err(_) => {
            assert(steps.len() == 1);
        },
        Ok(to) => {
            let rest = outcomes.drop_first();
            let tail = trace(script, to, rest);
            assert(steps == seq![at] + tail);
            trace_is_bounded(script, to, rest);
            if i == at {
                assert(steps[0] == i && next(script[i as int], i, outcomes[0]) is Ok);
            } else if i < to {
                assert(is_left_out(script, steps, outcomes, i)) by {
                    assert(steps[0] == at);
                    assert(outcomes[0] is Done);
                }
            } else {
                assert(steps[reached] == tail[reached - 1]);
                steps_are_reached_in_order(script, to, rest, reached - 1, i);
                if is_left_out(script, tail, rest, i) {
                    let p = choose|p: int|
                        0 <= p < tail.len() && rest[p] is Done && (
                        match script[(#[trigger] tail[p]) as int] {
                            OpView::Probe { skip, .. } => tail[p] < i <= tail[p] + skip,
                            _ => false,
                        });
                    assert(steps[p + 1] == tail[p] && outcomes[p + 1] == rest[p]);
                } else {
                    let p = choose|p: int|
                        0 <= p < reached - 1 && #[trigger] tail[p] == i && next(
                            script[i as int],
                            i,
                            rest[p],
                        ) is Ok;
                    assert(steps[p + 1] == tail[p] && outcomes[p + 1] == rest[p]);
                }
            }
        },
    }
}

/// After an operation that was carried out the next one follows; after a probe
/// that was, so many are left out as it says.
pub proof fn success_goes_on(op: OpView, at: nat)
    ensures
        next(op, at, OutcomeView::Done) == Ok::<nat, AppErrorView>(
            match op {
                OpView::Probe { skip, .. } => at + 1 + skip,
                _ => at + 1,
            },
        ),
{
}

/// A command that has to succeed and does not ends the list with its complaint,
/// or else with its command line. A report of failure of anything else does not
/// matter.
pub proof fn refusal_of_a_command_is_final(op: OpView, at: nat)
    ensures
        match op {
            OpView::Run { bin, args, complaint: Some(text) } => next(op, at, OutcomeView::Refused)
                == Err::<nat, AppErrorView>(AppErrorView::Io(text)),
            OpView::Run { bin, args, complaint: None } => next(op, at, OutcomeView::Refused)
                == Err::<nat, AppErrorView>(
                AppErrorView::Io("命令失败: "@ + bin + " "@ + debug_text(args)),
            ),
            _ => next(op, at, OutcomeView::Refused) == Ok::<nat, AppErrorView>(at + 1),
        },
{
}

/// The failure of an operation ends the list with its error, but where it does
/// not matter: of what is discarded, unmounted or looked for, of descriptors
/// and of what is said over them, and of a terminal's session.
pub proof fn failure_is_final_where_it_matters(op: OpView, at: nat, error: AppErrorView)
    ensures
        op is Discard || op is Detach || op is Probe || op is CloseFd || op is Notify || op is Wait
            || op is NewSession || op is ControllingTerminal || op is Duplicate ==> next(
            op,
            at,
            OutcomeView::Failed(error),
        ) == Ok::<nat, AppErrorView>(at + 1),
        op is CreateDirAll || op is Write || op is RemoveDir || op is RemoveDirAll
            || op is RemoveFile || op is MountOverlay || op is Run || op is Unshare
            || op is SetHostname || op is MountProc || op is BindDevices || op is ChangeRoot
            || op is ChangeDir || op is Exec ==> next(op, at, OutcomeView::Failed(error)) == Err::<
            nat,
            AppErrorView,
        >(error),
{
}

/// A list of operations is carried out from where it stands on: nothing behind
/// its end, and else the operation there first, and then what follows where it
/// leads; and it ends as what follows ends, or with the error there.
pub proof fn list_is_carried_out_step_by_step(
    script: Seq<OpView>,
    at: nat,
    outcome: OutcomeView,
    rest: Seq<OutcomeView>,
)
    ensures
        at >= script.len() ==> trace(script, at, seq![outcome] + rest).len() == 0 && (ending(
            script,
            at,
            seq![outcome] + rest,
        ) matches Some(Ok(_))),
        at < script.len() ==> match next(script[at as int], at, outcome) {
            Ok(to) => trace(script, at, seq![outcome] + rest) == seq![at] + trace(script, to, rest)
                && ending(script, at, seq![outcome] + rest) == ending(script, to, rest),
            Err(error) => trace(script, at, seq![outcome] + rest) == seq![at] && ending(
                script,
                at,
                seq![outcome] + rest,
            ) == Some(Err::<(), AppErrorView>(error)),
        },
        trace(script, at, seq![]).len() == 0,
        at < script.len() ==> ending(script, at, seq![]) is None,
{
    assert((seq![outcome] + rest).drop_first() =~= rest);
}

/// An operation is all of what it holds.
pub proof fn operation_is_seen_whole(op: Op, outcome: Outcome)
    ensures
        op matches Op::CreateDirAll { path } ==> op@ == (OpView::CreateDirAll { path: path@ }),
        op matches Op::Write { path, contents } ==> op@ == (OpView::Write {
            path: path@,
            contents: contents@,
        }),
        op matches Op::RemoveDir { path } ==> op@ == (OpView::RemoveDir { path: path@ }),
        op matches Op::RemoveDirAll { path } ==> op@ == (OpView::RemoveDirAll { path: path@ }),
        op matches Op::RemoveFile { path } ==> op@ == (OpView::RemoveFile { path: path@ }),
        op matches Op::Discard { path } ==> op@ == (OpView::Discard { path: path@ }),
        op matches Op::MountOverlay { target, options } ==> op@ == (OpView::MountOverlay {
            target: target@,
            options: options@,
        }),
        op matches Op::Detach { target } ==> op@ == (OpView::Detach { target: target@ }),
        op matches Op::Run { bin, args, complaint: Some(text) } ==> op@ == (OpView::Run {
            bin: bin@,
            args: args.deep_view(),
            complaint: Some(text@),
        }),
        op matches Op::Run { bin, args, complaint: None } ==> op@ == (OpView::Run {
            bin: bin@,
            args: args.deep_view(),
            complaint: None,
        }),
        op matches Op::Probe { bin, args, skip } ==> op@ == (OpView::Probe {
            bin: bin@,
            args: args.deep_view(),
            skip: skip as nat,
        }),
        op matches Op::CloseFd { fd } ==> op@ == (OpView::CloseFd { fd }),
        op matches Op::Notify { fd } ==> op@ == (OpView::Notify { fd }),
        op matches Op::Wait { fd } ==> op@ == (OpView::Wait { fd }),
        op is Unshare <==> op@ is Unshare,
        op matches Op::SetHostname { name } ==> op@ == (OpView::SetHostname { name: name@ }),
        op is NewSession <==> op@ is NewSession,
        op matches Op::ControllingTerminal { fd } ==> op@ == (OpView::ControllingTerminal { fd }),
        op matches Op::Duplicate { fd, onto } ==> op@ == (OpView::Duplicate { fd, onto }),
        op matches Op::MountProc { target } ==> op@ == (OpView::MountProc { target: target@ }),
        op matches Op::BindDevices { target } ==> op@ == (OpView::BindDevices { target: target@ }),
        op matches Op::ChangeRoot { path } ==> op@ == (OpView::ChangeRoot { path: path@ }),
        op matches Op::ChangeDir { path } ==> op@ == (OpView::ChangeDir { path: path@ }),
        op matches Op::Exec { argv } ==> op@ == (OpView::Exec { argv: argv.deep_view() }),
        op.deep_view() == op@,
        outcome is Done <==> outcome@ is Done,
        outcome is Refused <==> outcome@ is Refused,
        outcome matches Outcome::Failed(error) ==> outcome@ == OutcomeView::Failed(error@),
{
}

/// A list is well formed just when no probe in it would leave out more than
/// follows it.
pub proof fn well_formed_lists_end_where_they_end(script: Seq<OpView>)
    ensures
        well_formed(script) <==> forall|i: int|
            0 <= i < script.len() && (#[trigger] script[i]) is Probe ==> i + 1 + (match script[i] {
                OpView::Probe { skip, .. } => skip,
                _ => 0,
            }) <= script.len(),
{
    if well_formed(script) {
        assert forall|i: int|
            0 <= i < script.len() && (#[trigger] script[i]) is Probe implies i + 1 + (
        match script[i] {
            OpView::Probe { skip, .. } => skip,
            _ => 0,
        }) <= script.len() by {}
    }
}

} // verus!
