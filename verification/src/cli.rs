//! What the user asks for on the command line.

use crate::text;
use vstd::prelude::*;

verus! {

/// What the user asks for.
pub enum Invocation {
    Daemon,
    List,
    Run { command: Vec<String>, memory_limit: String, interactive: bool },
    /// To run something, but not what.
    IncompleteRun,
    Stop { id: String },
    Remove { id: String },
    Unknown,
}

#[verifier::ext_equal]
pub enum InvocationView {
    Daemon,
    List,
    Run { command: Seq<Seq<char>>, memory_limit: Seq<char>, interactive: bool },
    IncompleteRun,
    Stop { id: Seq<char> },
    Remove { id: Seq<char> },
    Unknown,
}

impl View for Invocation {
    type V = InvocationView;

    open spec fn view(&self) -> InvocationView {
        match self {
            Invocation::Daemon => InvocationView::Daemon,
            Invocation::List => InvocationView::List,
            Invocation::Run { command, memory_limit, interactive } => InvocationView::Run {
                command: command.deep_view(),
                memory_limit: memory_limit@,
                interactive: *interactive,
            },
            Invocation::IncompleteRun => InvocationView::IncompleteRun,
            Invocation::Stop { id } => InvocationView::Stop { id: id@ },
            Invocation::Remove { id } => InvocationView::Remove { id: id@ },
            Invocation::Unknown => InvocationView::Unknown,
        }
    }
}

/// Of the arguments for running something the last is the memory limit, and
/// those before it are the command, which `-it` may stand before.
pub open spec fn run_invocation(args: Seq<Seq<char>>) -> InvocationView {
    let interactive = args.len() > 0 && args[0] == "-it"@;
    let rest = if interactive {
        args.drop_first()
    } else {
        args
    };
    if rest.len() < 2 {
        InvocationView::IncompleteRun
    } else {
        InvocationView::Run { command: rest.drop_last(), memory_limit: rest.last(), interactive }
    }
}

/// The argument that names a container. An empty one stands for none.
pub open spec fn named(args: Seq<Seq<char>>) -> Seq<char> {
    if args.len() > 2 {
        args[2]
    } else {
        seq![]
    }
}

/// What the user asks for with `args`, of which the first is the program.
pub open spec fn invocation_of(args: Seq<Seq<char>>) -> InvocationView {
    if args.len() < 2 {
        InvocationView::Unknown
    } else if args[1] == "daemon"@ {
        InvocationView::Daemon
    } else if args[1] == "list"@ {
        InvocationView::List
    } else if args[1] == "run"@ {
        run_invocation(args.skip(2))
    } else if args[1] == "stop"@ {
        InvocationView::Stop { id: named(args) }
    } else if args[1] == "remove"@ {
        InvocationView::Remove { id: named(args) }
    } else {
        InvocationView::Unknown
    }
}

fn name_of(args: &Vec<String>) -> (id: String)
    ensures
        id@ == named(args.deep_view()),
{
    if args.len() > 2 {
        args[2].clone()
    } else {
        String::new()
    }
}

fn parse_run(args: &Vec<String>) -> (invocation: Invocation)
    requires
        args.len() >= 2,
    ensures
        invocation@ == run_invocation(args.deep_view().skip(2)),
{
    let ghost all = args.deep_view();
    let ghost given = all.skip(2);
    let interactive = args.len() > 2 && text::same_text(args[2].as_str(), "-it");
    assert(args.len() > 2 ==> given[0] == args[2]@);
    let start: usize = if interactive { 3 } else { 2 };
    let ghost rest = if interactive {
        given.drop_first()
    } else {
        given
    };
    assert(rest =~= all.skip(start as int));
    if args.len() < start + 2 {
        return Invocation::IncompleteRun;
    }
    let end: usize = args.len() - 1;
    let mut command: Vec<String> = Vec::new();
    let mut i: usize = start;
    while i < end
        invariant
            start <= i <= end < args.len(),
            all == args.deep_view(),
            command.deep_view() =~= all.subrange(start as int, i as int),
        decreases end - i,
    {
        let ghost before = command.deep_view();
        let word = args[i].clone();
        let ghost shown = word@;
        command.push(word);
        assert(command.deep_view() =~= before.push(shown));
        i += 1;
    }
    assert(command.deep_view() =~= rest.drop_last());
    assert(rest.last() == args[end as int]@);
    Invocation::Run { command, memory_limit: args[end].clone(), interactive }
}

/// Reads what the user asks for.
pub fn parse(args: &Vec<String>) -> (invocation: Invocation)
    ensures
        invocation@ == invocation_of(args.deep_view()),
{
    if args.len() < 2 {
        return Invocation::Unknown;
    }
    let verb = args[1].as_str();
    if text::same_text(verb, "daemon") {
        Invocation::Daemon
    } else if text::same_text(verb, "list") {
        Invocation::List
    } else if text::same_text(verb, "run") {
        parse_run(args)
    } else if text::same_text(verb, "stop") {
        Invocation::Stop { id: name_of(args) }
    } else if text::same_text(verb, "remove") {
        Invocation::Remove { id: name_of(args) }
    } else {
        Invocation::Unknown
    }
}

/// How a command is run, for a user who did not say which.
pub fn usage() -> (lines: Vec<String>)
    ensures
        lines.deep_view() == seq![
            "用法: cb run [-it] <command...> <memory_limit>"@,
            "示例: cb run /bin/bash 256M"@,
        ],
{
    let lines = vec![
        "用法: cb run [-it] <command...> <memory_limit>".to_owned(),
        "示例: cb run /bin/bash 256M".to_owned(),
    ];
    assert(lines.deep_view() =~= seq![lines[0]@, lines[1]@]);
    lines
}

/// Whatever the command and the memory limit are, they are read as given: the
/// last argument is the limit, and all before it, but for a leading `-it`, is
/// the command.
pub proof fn run_arguments_are_read_as_given(
    program: Seq<char>,
    command: Seq<Seq<char>>,
    memory_limit: Seq<char>,
)
    requires
        command.len() > 0,
    ensures
        command[0] != "-it"@ ==> invocation_of(
            seq![program, "run"@] + command.push(memory_limit),
        ) == (InvocationView::Run { command, memory_limit, interactive: false }),
        invocation_of(seq![program, "run"@, "-it"@] + command.push(memory_limit)) == (
        InvocationView::Run { command, memory_limit, interactive: true }),
{
    reveal_strlit("run");
    reveal_strlit("daemon");
    reveal_strlit("list");
    assert("run"@.len() == 3 && "daemon"@.len() == 6 && "list"@.len() == 4);
    let given = command.push(memory_limit);
    let plain = seq![program, "run"@] + given;
    assert(plain.skip(2) =~= given);
    assert(given.drop_last() =~= command);
    let terminal = seq![program, "run"@, "-it"@] + given;
    assert(terminal.skip(2) =~= seq!["-it"@] + given);
    assert((seq!["-it"@] + given).drop_first() =~= given);
}

proof fn lemma_verbs_differ()
    ensures
        "daemon"@ != "list"@,
        "daemon"@ != "run"@,
        "daemon"@ != "stop"@,
        "daemon"@ != "remove"@,
        "list"@ != "run"@,
        "list"@ != "stop"@,
        "list"@ != "remove"@,
        "run"@ != "stop"@,
        "run"@ != "remove"@,
        "stop"@ != "remove"@,
{
    reveal_strlit("daemon");
    reveal_strlit("list");
    reveal_strlit("run");
    reveal_strlit("stop");
    reveal_strlit("remove");
    assert("daemon"@[0] == 'd' && "list"@[0] == 'l' && "run"@[0] == 'r' && "stop"@[0] == 's'
        && "remove"@[0] == 'r');
    assert("run"@.len() == 3 && "remove"@.len() == 6);
}

/// The first word behind the program says what is asked for. The next one names
/// the container that is to be stopped or removed, whatever follows; without one
/// its name is empty. Whatever else the first word is, it is not known, and so
/// it is without one.
pub proof fn first_word_says_what_is_asked_for(
    program: Seq<char>,
    verb: Seq<char>,
    id: Seq<char>,
    rest: Seq<Seq<char>>,
)
    ensures
        invocation_of(seq![]) is Unknown,
        invocation_of(seq![program]) is Unknown,
        invocation_of(seq![program, "daemon"@] + rest) is Daemon,
        invocation_of(seq![program, "list"@] + rest) is List,
        invocation_of(seq![program, "stop"@, id] + rest) == (InvocationView::Stop { id }),
        invocation_of(seq![program, "remove"@, id] + rest) == (InvocationView::Remove { id }),
        invocation_of(seq![program, "stop"@]) == (InvocationView::Stop { id: ""@ }),
        invocation_of(seq![program, "remove"@]) == (InvocationView::Remove { id: ""@ }),
        verb != "daemon"@ && verb != "list"@ && verb != "run"@ && verb != "stop"@ && verb
            != "remove"@ ==> invocation_of(seq![program, verb] + rest) is Unknown,
{
    lemma_verbs_differ();
    reveal_strlit("");
    assert(Seq::<char>::empty() =~= ""@);
}

/// To run something takes a command of at least one word and a limit: with less
/// than that it is not said what is to be run.
pub proof fn run_takes_a_command_and_a_limit(program: Seq<char>, word: Seq<char>)
    ensures
        invocation_of(seq![program, "run"@]) is IncompleteRun,
        invocation_of(seq![program, "run"@, word]) is IncompleteRun,
        invocation_of(seq![program, "run"@, "-it"@, word]) is IncompleteRun,
{
    lemma_verbs_differ();
    assert(seq![program, "run"@].skip(2) =~= seq![]);
    assert(seq![program, "run"@, word].skip(2) =~= seq![word]);
    let args = seq![program, "run"@, "-it"@, word];
    assert(args.skip(2) =~= seq!["-it"@, word]);
    assert(seq!["-it"@, word].drop_first() =~= seq![word]);
}

/// What the user asks for is all of what it holds.
pub proof fn invocation_is_seen_whole(invocation: Invocation)
    ensures
        invocation is Daemon <==> invocation@ is Daemon,
        invocation is List <==> invocation@ is List,
        invocation matches Invocation::Run { command, memory_limit, interactive } ==> invocation@
            == (InvocationView::Run {
            command: command.deep_view(),
            memory_limit: memory_limit@,
            interactive,
        }),
        invocation is IncompleteRun <==> invocation@ is IncompleteRun,
        invocation matches Invocation::Stop { id } ==> invocation@ == (InvocationView::Stop {
            id: id@,
        }),
        invocation matches Invocation::Remove { id } ==> invocation@ == (InvocationView::Remove {
            id: id@,
        }),
        invocation is Unknown <==> invocation@ is Unknown,
{
}

} // verus!
