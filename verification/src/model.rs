//! A command carried out to its end.
//!
//! The steps of a command leave the work on the operating system to the
//! caller. `World` stands for a system that answers: which files exist,
//! which directories can be entered, what the working directory is, which
//! programs start. Against such a world a first step has one sequence of
//! requests and one final step, and the lemmas below say what they are for
//! each kind of command.

use crate::command::interpret_line;
use crate::command::is_builtin;
use crate::command::parse;
use crate::command::CommandView;
use crate::error::ShellErrorView;
use crate::path::candidate;
use crate::step::current_dir_reply;
use crate::step::line;
use crate::step::search_from;
use crate::step::DirChangeView;
use crate::step::GoalView;
use crate::step::LaunchView;
use crate::step::ProbeView;
use crate::step::StepView;
use vstd::prelude::*;

verus! {

/// The answers of a system.
pub struct World {
    /// Whether a file exists at a path.
    pub exists: spec_fn(Seq<char>) -> bool,
    /// Whether a directory can be made the working directory.
    pub enters: spec_fn(Seq<char>) -> bool,
    /// The working directory, or why it cannot be named.
    pub working_dir: Result<Seq<char>, Seq<char>>,
    /// Whether a program starts, or why it does not.
    pub runs: spec_fn(LaunchView) -> Result<(), Seq<char>>,
}

impl World {
    /// The step that follows `step` once this world has answered it. A final
    /// step stays.
    pub open spec fn answer(self, step: StepView, dirs: Seq<Seq<char>>) -> StepView {
        match step {
            StepView::ChangeDir(change) => change.reply((self.enters)(change.dir)),
            StepView::CurrentDir => current_dir_reply(self.working_dir),
            StepView::Probe(probe) => probe.reply((self.exists)(probe.path), dirs),
            StepView::Spawn(launch) => launch.reply((self.runs)(launch)),
            _ => step,
        }
    }
}

/// A bound on the number of requests from `step` on.
pub open spec fn steps_left(step: StepView, dirs: Seq<Seq<char>>) -> nat {
    match step {
        StepView::Probe(probe) => if probe.index < dirs.len() {
            (dirs.len() - probe.index + 1) as nat
        } else {
            2
        },
        StepView::ChangeDir(_) => 1,
        StepView::CurrentDir => 1,
        StepView::Spawn(_) => 1,
        _ => 0,
    }
}

/// The final step that `step` leads to in `world`.
pub open spec fn outcome(step: StepView, dirs: Seq<Seq<char>>, world: World) -> StepView
    decreases steps_left(step, dirs),
{
    if step.is_final() {
        step
    } else {
        outcome(world.answer(step, dirs), dirs, world)
    }
}

/// The requests made from `step` on in `world`, in order.
pub open spec fn requests(step: StepView, dirs: Seq<Seq<char>>, world: World) -> Seq<StepView>
    decreases steps_left(step, dirs),
{
    if step.is_final() {
        Seq::empty()
    } else {
        seq![step] + requests(world.answer(step, dirs), dirs, world)
    }
}

/// The probe for `name` in the directory at position `index`.
pub open spec fn probe_at(
    name: Seq<char>,
    goal: GoalView,
    dirs: Seq<Seq<char>>,
    index: int,
) -> StepView {
    StepView::Probe(
        ProbeView { name, index: index as nat, path: candidate(dirs[index], name), goal },
    )
}

/// The probes for `name` in the first `n` directories, in order.
pub open spec fn probes(name: Seq<char>, goal: GoalView, dirs: Seq<Seq<char>>, n: int) -> Seq<
    StepView,
> {
    Seq::new(n as nat, |i: int| probe_at(name, goal, dirs, i))
}

/// The directory at position `i` is the first that holds `name`.
pub open spec fn first_hit(name: Seq<char>, dirs: Seq<Seq<char>>, world: World, i: int) -> bool {
    &&& 0 <= i < dirs.len()
    &&& (world.exists)(candidate(dirs[i], name))
    &&& forall|j: int| 0 <= j < i ==> !(world.exists)(candidate(#[trigger] dirs[j], name))
}

/// No directory holds `name`.
pub open spec fn no_hit(name: Seq<char>, dirs: Seq<Seq<char>>, world: World) -> bool {
    forall|j: int| 0 <= j < dirs.len() ==> !(world.exists)(candidate(#[trigger] dirs[j], name))
}

/// The file that a search for `name` comes to: the candidate in the first
/// directory that holds one. Existence is all that is asked of it.
pub open spec fn resolve(name: Seq<char>, dirs: Seq<Seq<char>>, world: World) -> Option<
    Seq<char>,
>
    decreases dirs.len(),
{
    if dirs.len() == 0 {
        None
    } else if (world.exists)(candidate(dirs[0], name)) {
        Some(candidate(dirs[0], name))
    } else {
        resolve(name, dirs.skip(1), world)
    }
}

/// `resolve` finds nothing exactly where no directory holds the name, and
/// else the candidate of the first directory that does.
pub proof fn lemma_resolve(name: Seq<char>, dirs: Seq<Seq<char>>, world: World)
    ensures
        resolve(name, dirs, world) is None <==> no_hit(name, dirs, world),
        forall|i: int| #[trigger]
            first_hit(name, dirs, world, i) ==> resolve(name, dirs, world) == Some(
                candidate(dirs[i], name),
            ),
        resolve(name, dirs, world) is Some ==> exists|i: int| first_hit(name, dirs, world, i),
    decreases dirs.len(),
{
    if dirs.len() == 0 {
    } else if (world.exists)(candidate(dirs[0], name)) {
        assert(first_hit(name, dirs, world, 0));
    } else {
        let rest = dirs.skip(1);
        lemma_resolve(name, rest, world);
        if no_hit(name, rest, world) {
            assert forall|j: int| 0 <= j < dirs.len() implies !(world.exists)(
                candidate(#[trigger] dirs[j], name),
            ) by {
                if j > 0 {
                    assert(dirs[j] == rest[j - 1]);
                }
            }
        }
        if no_hit(name, dirs, world) {
            assert forall|j: int| 0 <= j < rest.len() implies !(world.exists)(
                candidate(#[trigger] rest[j], name),
            ) by {
                assert(rest[j] == dirs[j + 1]);
            }
        }
        assert forall|i: int| #[trigger] first_hit(name, dirs, world, i) implies resolve(
            name,
            dirs,
            world,
        ) == Some(candidate(dirs[i], name)) by {
            assert(i > 0);
            assert(rest[i - 1] == dirs[i]);
            assert forall|j: int| 0 <= j < i - 1 implies !(world.exists)(
                candidate(#[trigger] rest[j], name),
            ) by {
                assert(rest[j] == dirs[j + 1]);
            }
            assert(first_hit(name, rest, world, i - 1));
        }
        if resolve(name, dirs, world) is Some {
            let k = choose|k: int| first_hit(name, rest, world, k);
            assert(dirs[k + 1] == rest[k]);
            assert forall|j: int| 0 <= j < k + 1 implies !(world.exists)(
                candidate(#[trigger] dirs[j], name),
            ) by {
                if j > 0 {
                    assert(dirs[j] == rest[j - 1]);
                }
            }
            assert(first_hit(name, dirs, world, k + 1));
        }
    }
}

/// However a command goes, it comes to an end: `outcome` is a final step.
pub proof fn lemma_outcome_is_final(step: StepView, dirs: Seq<Seq<char>>, world: World)
    ensures
        outcome(step, dirs, world).is_final(),
    decreases steps_left(step, dirs),
{
    if !step.is_final() {
        lemma_outcome_is_final(world.answer(step, dirs), dirs, world);
    }
}

/// No answer of the system ends the interpreter: a command ends in `Exit`
/// only where its first step is that `Exit`.
pub proof fn lemma_exit_is_first(step: StepView, dirs: Seq<Seq<char>>, world: World)
    ensures
        outcome(step, dirs, world) is Exit ==> step == outcome(step, dirs, world),
    decreases steps_left(step, dirs),
{
    if !step.is_final() {
        let next = world.answer(step, dirs);
        lemma_exit_is_first(next, dirs, world);
    }
}

/// The search from position `k` on, where the first hit is at `i`.
proof fn lemma_search_hits(
    name: Seq<char>,
    goal: GoalView,
    dirs: Seq<Seq<char>>,
    world: World,
    k: int,
    i: int,
)
    requires
        first_hit(name, dirs, world, i),
        0 <= k <= i,
    ensures
        goal is Describe ==> requests(search_from(name, goal, dirs, k as nat), dirs, world)
            == probes(name, goal, dirs, i + 1).skip(k),
        goal is Describe ==> outcome(search_from(name, goal, dirs, k as nat), dirs, world)
            == StepView::Done(Some(line(name + " is "@ + candidate(dirs[i], name)))),
        goal matches GoalView::Launch { args } ==> requests(
            search_from(name, goal, dirs, k as nat),
            dirs,
            world,
        ) == probes(name, goal, dirs, i + 1).skip(k) + seq![
            StepView::Spawn(LaunchView { path: candidate(dirs[i], name), args }),
        ],
        goal matches GoalView::Launch { args } ==> outcome(
            search_from(name, goal, dirs, k as nat),
            dirs,
            world,
        ) == (LaunchView { path: candidate(dirs[i], name), args }).reply(
            (world.runs)(LaunchView { path: candidate(dirs[i], name), args }),
        ),
    decreases i - k,
{
    let step = search_from(name, goal, dirs, k as nat);
    let all = probes(name, goal, dirs, i + 1);
    assert(step == probe_at(name, goal, dirs, k));
    assert(step == all[k]);
    let next = world.answer(step, dirs);
    assert(requests(step, dirs, world) == seq![step] + requests(next, dirs, world));
    assert(outcome(step, dirs, world) == outcome(next, dirs, world));
    if k == i {
        assert(all.skip(k) =~= seq![step]);
        match goal {
            GoalView::Describe => {
                assert(next.is_final());
                assert(requests(next, dirs, world) =~= Seq::<StepView>::empty());
                assert(seq![step] + Seq::<StepView>::empty() =~= seq![step]);
            },
            GoalView::Launch { args } => {
                let launch = LaunchView { path: candidate(dirs[i], name), args };
                assert(next == StepView::Spawn(launch));
                let last = world.answer(next, dirs);
                assert(last.is_final());
                assert(requests(last, dirs, world) =~= Seq::<StepView>::empty());
                assert(requests(next, dirs, world) =~= seq![next]);
                assert(outcome(next, dirs, world) == outcome(last, dirs, world));
            },
        }
    } else {
        assert(!(world.exists)(candidate(dirs[k], name)));
        assert(next == search_from(name, goal, dirs, (k + 1) as nat));
        lemma_search_hits(name, goal, dirs, world, k + 1, i);
        assert(all.skip(k) =~= seq![step] + all.skip(k + 1));
        match goal {
            GoalView::Describe => {},
            GoalView::Launch { args } => {
                let tail = seq![
                    StepView::Spawn(LaunchView { path: candidate(dirs[i], name), args }),
                ];
                assert(seq![step] + (all.skip(k + 1) + tail) =~= all.skip(k) + tail);
            },
        }
    }
}

/// The search from position `k` on, where no directory holds the name.
proof fn lemma_search_misses(
    name: Seq<char>,
    goal: GoalView,
    dirs: Seq<Seq<char>>,
    world: World,
    k: int,
)
    requires
        no_hit(name, dirs, world),
        0 <= k <= dirs.len(),
    ensures
        requests(search_from(name, goal, dirs, k as nat), dirs, world) == probes(
            name,
            goal,
            dirs,
            dirs.len() as int,
        ).skip(k),
        outcome(search_from(name, goal, dirs, k as nat), dirs, world) == StepView::Failed(
            ShellErrorView::NotFound { name },
        ),
    decreases dirs.len() - k,
{
    let step = search_from(name, goal, dirs, k as nat);
    let all = probes(name, goal, dirs, dirs.len() as int);
    if k == dirs.len() {
        assert(step.is_final());
        assert(all.skip(k) =~= Seq::<StepView>::empty());
    } else {
        assert(step == probe_at(name, goal, dirs, k));
        assert(step == all[k]);
        assert(!(world.exists)(candidate(dirs[k], name)));
        let next = world.answer(step, dirs);
        assert(next == search_from(name, goal, dirs, (k + 1) as nat));
        assert(requests(step, dirs, world) == seq![step] + requests(next, dirs, world));
        assert(outcome(step, dirs, world) == outcome(next, dirs, world));
        lemma_search_misses(name, goal, dirs, world, k + 1);
        assert(all.skip(k) =~= seq![step] + all.skip(k + 1));
    }
}

/// `echo` prints its text and asks the system for nothing.
pub proof fn lemma_echo(
    string: Seq<char>,
    home: Option<Seq<char>>,
    dirs: Seq<Seq<char>>,
    world: World,
)
    ensures
        requests((CommandView::Echo { string }).execute(home, dirs), dirs, world).len() == 0,
        outcome((CommandView::Echo { string }).execute(home, dirs), dirs, world)
            == StepView::Done(Some(line(string))),
{
}

/// `exit` ends the interpreter with its code and asks the system for
/// nothing.
pub proof fn lemma_exit(code: i32, home: Option<Seq<char>>, dirs: Seq<Seq<char>>, world: World)
    ensures
        requests((CommandView::Exit { code }).execute(home, dirs), dirs, world).len() == 0,
        outcome((CommandView::Exit { code }).execute(home, dirs), dirs, world) == StepView::Exit(
            code,
        ),
{
}

/// A line ends the interpreter exactly if it reads as an `exit` command,
/// and then with that command's code. A line that does not read as a
/// command never does.
pub proof fn lemma_only_exit_ends(
    line: Seq<char>,
    home: Option<Seq<char>>,
    dirs: Seq<Seq<char>>,
    world: World,
    code: i32,
)
    ensures
        outcome(interpret_line(line, home, dirs), dirs, world) == StepView::Exit(code) <==> parse(
            line,
        ) == Ok::<Option<CommandView>, ShellErrorView>(Some(CommandView::Exit { code })),
{
    let first = interpret_line(line, home, dirs);
    lemma_exit_is_first(first, dirs, world);
}

/// `pwd` asks for the working directory once. It prints what the system
/// names, or fails with the system's words.
pub proof fn lemma_pwd(home: Option<Seq<char>>, dirs: Seq<Seq<char>>, world: World)
    ensures
        requests(CommandView::Pwd.execute(home, dirs), dirs, world) == seq![StepView::CurrentDir],
        world.working_dir matches Ok(dir) ==> outcome(
            CommandView::Pwd.execute(home, dirs),
            dirs,
            world,
        ) == StepView::Done(Some(line(dir))),
        world.working_dir matches Err(message) ==> outcome(
            CommandView::Pwd.execute(home, dirs),
            dirs,
            world,
        ) == StepView::Failed(ShellErrorView::System { message }),
{
    let first = CommandView::Pwd.execute(home, dirs);
    let last = world.answer(first, dirs);
    assert(last.is_final());
    assert(requests(last, dirs, world) =~= Seq::<StepView>::empty());
    assert(requests(first, dirs, world) =~= seq![first]);
    assert(outcome(first, dirs, world) == outcome(last, dirs, world));
}

/// The directory that `cd` asks for: the home directory for `~`, if there
/// is one, and else the argument as it stands.
pub open spec fn cd_target(dir: Seq<char>, home: Option<Seq<char>>) -> Option<Seq<char>> {
    if dir == "~"@ {
        home
    } else {
        Some(dir)
    }
}

/// `cd` asks once for a change to its target and for nothing else. Where
/// the system refuses, the command fails and names the target. `cd ~`
/// without a home directory fails without a request.
pub proof fn lemma_cd(dir: Seq<char>, home: Option<Seq<char>>, dirs: Seq<Seq<char>>, world: World)
    ensures
        cd_target(dir, home) is None ==> {
            &&& requests((CommandView::Cd { dir }).execute(home, dirs), dirs, world).len() == 0
            &&& outcome((CommandView::Cd { dir }).execute(home, dirs), dirs, world)
                == StepView::Failed(ShellErrorView::HomeNotSet)
        },
        cd_target(dir, home) matches Some(target) ==> {
            &&& requests((CommandView::Cd { dir }).execute(home, dirs), dirs, world) == seq![
                StepView::ChangeDir(DirChangeView { dir: target }),
            ]
            &&& (world.enters)(target) ==> outcome(
                (CommandView::Cd { dir }).execute(home, dirs),
                dirs,
                world,
            ) == StepView::Done(None)
            &&& !(world.enters)(target) ==> outcome(
                (CommandView::Cd { dir }).execute(home, dirs),
                dirs,
                world,
            ) == StepView::Failed(ShellErrorView::NoSuchDirectory { dir: target })
        },
{
    let first = (CommandView::Cd { dir }).execute(home, dirs);
    if cd_target(dir, home) is Some {
        let last = world.answer(first, dirs);
        assert(last.is_final());
        assert(requests(last, dirs, world) =~= Seq::<StepView>::empty());
        assert(requests(first, dirs, world) =~= seq![first]);
        assert(outcome(first, dirs, world) == outcome(last, dirs, world));
    }
}

/// `type` says of a builtin that it is one, without a request. For any
/// other name it probes the directories in order up to the first that holds
/// the name, and prints the path there; where none holds it, it has probed
/// them all and fails.
pub proof fn lemma_type(arg: Seq<char>, home: Option<Seq<char>>, dirs: Seq<Seq<char>>, world: World)
    ensures
        is_builtin(arg) ==> {
            &&& requests((CommandView::Type { arg }).execute(home, dirs), dirs, world).len() == 0
            &&& outcome((CommandView::Type { arg }).execute(home, dirs), dirs, world)
                == StepView::Done(Some(line(arg + " is a shell builtin"@)))
        },
        forall|i: int|
            !is_builtin(arg) && #[trigger] first_hit(arg, dirs, world, i) ==> {
                &&& requests((CommandView::Type { arg }).execute(home, dirs), dirs, world)
                    == probes(arg, GoalView::Describe, dirs, i + 1)
                &&& outcome((CommandView::Type { arg }).execute(home, dirs), dirs, world)
                    == StepView::Done(Some(line(arg + " is "@ + candidate(dirs[i], arg))))
            },
        !is_builtin(arg) && no_hit(arg, dirs, world) ==> {
            &&& requests((CommandView::Type { arg }).execute(home, dirs), dirs, world) == probes(
                arg,
                GoalView::Describe,
                dirs,
                dirs.len() as int,
            )
            &&& outcome((CommandView::Type { arg }).execute(home, dirs), dirs, world)
                == StepView::Failed(ShellErrorView::NotFound { name: arg })
        },
{
    if !is_builtin(arg) {
        assert forall|i: int| #[trigger] first_hit(arg, dirs, world, i) implies {
            &&& requests((CommandView::Type { arg }).execute(home, dirs), dirs, world) == probes(
                arg,
                GoalView::Describe,
                dirs,
                i + 1,
            )
            &&& outcome((CommandView::Type { arg }).execute(home, dirs), dirs, world)
                == StepView::Done(Some(line(arg + " is "@ + candidate(dirs[i], arg))))
        } by {
            lemma_search_hits(arg, GoalView::Describe, dirs, world, 0, i);
            assert(probes(arg, GoalView::Describe, dirs, i + 1).skip(0) =~= probes(
                arg,
                GoalView::Describe,
                dirs,
                i + 1,
            ));
        }
        if no_hit(arg, dirs, world) {
            lemma_search_misses(arg, GoalView::Describe, dirs, world, 0);
            assert(probes(arg, GoalView::Describe, dirs, dirs.len() as int).skip(0) =~= probes(
                arg,
                GoalView::Describe,
                dirs,
                dirs.len() as int,
            ));
        }
    }
}

/// A program is looked for in the directories in order. Where none holds
/// it, the command fails after the probes and nothing is run. Where one
/// does, the probes up to the first hit are followed by one launch, of the
/// file there, with the arguments as they were given; the command succeeds
/// if the program started, and fails with the system's words if not.
pub proof fn lemma_exe(
    file: Seq<char>,
    args: Seq<Seq<char>>,
    home: Option<Seq<char>>,
    dirs: Seq<Seq<char>>,
    world: World,
)
    ensures
        no_hit(file, dirs, world) ==> {
            &&& requests((CommandView::Exe { file, args }).execute(home, dirs), dirs, world)
                == probes(file, GoalView::Launch { args }, dirs, dirs.len() as int)
            &&& forall|k: int|
                0 <= k < dirs.len() ==> !(#[trigger] requests(
                    (CommandView::Exe { file, args }).execute(home, dirs),
                    dirs,
                    world,
                )[k] is Spawn)
            &&& outcome((CommandView::Exe { file, args }).execute(home, dirs), dirs, world)
                == StepView::Failed(ShellErrorView::NotFound { name: file })
        },
        forall|i: int| #[trigger]
            first_hit(file, dirs, world, i) ==> {
                let launch = LaunchView { path: candidate(dirs[i], file), args };
                &&& requests((CommandView::Exe { file, args }).execute(home, dirs), dirs, world)
                    == probes(file, GoalView::Launch { args }, dirs, i + 1) + seq![
                    StepView::Spawn(launch),
                ]
                &&& (world.runs)(launch) is Ok ==> outcome(
                    (CommandView::Exe { file, args }).execute(home, dirs),
                    dirs,
                    world,
                ) == StepView::Done(None)
                &&& (world.runs)(launch) matches Err(message) ==> outcome(
                    (CommandView::Exe { file, args }).execute(home, dirs),
                    dirs,
                    world,
                ) == StepView::Failed(ShellErrorView::System { message })
            },
{
    let goal = GoalView::Launch { args };
    if no_hit(file, dirs, world) {
        lemma_search_misses(file, goal, dirs, world, 0);
        assert(probes(file, goal, dirs, dirs.len() as int).skip(0) =~= probes(
            file,
            goal,
            dirs,
            dirs.len() as int,
        ));
    }
    assert forall|i: int| #[trigger] first_hit(file, dirs, world, i) implies {
        let launch = LaunchView { path: candidate(dirs[i], file), args };
        &&& requests((CommandView::Exe { file, args }).execute(home, dirs), dirs, world) == probes(
            file,
            GoalView::Launch { args },
            dirs,
            i + 1,
        ) + seq![StepView::Spawn(launch)]
        &&& (world.runs)(launch) is Ok ==> outcome(
            (CommandView::Exe { file, args }).execute(home, dirs),
            dirs,
            world,
        ) == StepView::Done(None)
        &&& (world.runs)(launch) matches Err(message) ==> outcome(
            (CommandView::Exe { file, args }).execute(home, dirs),
            dirs,
            world,
        ) == StepView::Failed(ShellErrorView::System { message })
    } by {
        lemma_search_hits(file, goal, dirs, world, 0, i);
        assert(probes(file, goal, dirs, i + 1).skip(0) =~= probes(file, goal, dirs, i + 1));
    }
}

impl CommandView {
    /// What the command comes to in `world`, said in one piece:
    ///
    /// - `pwd` prints the working directory, or fails where the system
    ///   cannot name it;
    /// - `cd` succeeds in silence where the system lets its target be
    ///   entered, and else fails;
    /// - `echo` prints its text;
    /// - `exit` ends the interpreter;
    /// - `type` says of a builtin that it is one, prints the file that any
    ///   other name resolves to, and fails where it resolves to none;
    /// - a program that resolves to a file is run, and the command succeeds
    ///   if it started; one that resolves to none is not found.
    pub open spec fn ends_in(
        self,
        home: Option<Seq<char>>,
        dirs: Seq<Seq<char>>,
        world: World,
    ) -> StepView {
        match self {
            CommandView::Pwd => current_dir_reply(world.working_dir),
            CommandView::Cd { dir } => match cd_target(dir, home) {
                None => StepView::Failed(ShellErrorView::HomeNotSet),
                Some(target) => if (world.enters)(target) {
                    StepView::Done(None)
                } else {
                    StepView::Failed(ShellErrorView::NoSuchDirectory { dir: target })
                },
            },
            CommandView::Echo { string } => StepView::Done(Some(line(string))),
            CommandView::Exit { code } => StepView::Exit(code),
            CommandView::Type { arg } => if is_builtin(arg) {
                StepView::Done(Some(line(arg + " is a shell builtin"@)))
            } else {
                match resolve(arg, dirs, world) {
                    Some(path) => StepView::Done(Some(line(arg + " is "@ + path))),
                    None => StepView::Failed(ShellErrorView::NotFound { name: arg }),
                }
            },
            CommandView::Exe { file, args } => match resolve(file, dirs, world) {
                Some(path) => match (world.runs)(LaunchView { path, args }) {
                    Ok(_) => StepView::Done(None),
                    Err(message) => StepView::Failed(ShellErrorView::System { message }),
                },
                None => StepView::Failed(ShellErrorView::NotFound { name: file }),
            },
        }
    }
}

/// The steps do what the commands mean: carried out step by step against a
/// world, a command ends as `ends_in` says.
pub proof fn lemma_execute_ends_in(
    command: CommandView,
    home: Option<Seq<char>>,
    dirs: Seq<Seq<char>>,
    world: World,
)
    ensures
        outcome(command.execute(home, dirs), dirs, world) == command.ends_in(home, dirs, world),
{
    match command {
        CommandView::Pwd => {
            lemma_pwd(home, dirs, world);
        },
        CommandView::Cd { dir } => {
            lemma_cd(dir, home, dirs, world);
        },
        CommandView::Echo { string } => {},
        CommandView::Exit { code } => {},
        CommandView::Type { arg } => {
            lemma_type(arg, home, dirs, world);
            lemma_resolve(arg, dirs, world);
            if !is_builtin(arg) && resolve(arg, dirs, world) is Some {
                let i = choose|i: int| first_hit(arg, dirs, world, i);
                assert(first_hit(arg, dirs, world, i));
            }
        },
        CommandView::Exe { file, args } => {
            lemma_exe(file, args, home, dirs, world);
            lemma_resolve(file, dirs, world);
            if resolve(file, dirs, world) is Some {
                let i = choose|i: int| first_hit(file, dirs, world, i);
                assert(first_hit(file, dirs, world, i));
            }
        },
    }
}

/// What a line of input comes to in `world`: nothing for a blank line, the
/// error for a line that is no command, and else what the command ends in.
pub open spec fn line_ends_in(
    line: Seq<char>,
    home: Option<Seq<char>>,
    dirs: Seq<Seq<char>>,
    world: World,
) -> StepView {
    match parse(line) {
        Ok(None) => StepView::Done(None),
        Ok(Some(command)) => command.ends_in(home, dirs, world),
        Err(error) => StepView::Failed(error),
    }
}

/// From the line to the final step, the interpreter does what
/// `line_ends_in` says.
pub proof fn lemma_interpret_ends_in(
    line: Seq<char>,
    home: Option<Seq<char>>,
    dirs: Seq<Seq<char>>,
    world: World,
)
    ensures
        outcome(interpret_line(line, home, dirs), dirs, world) == line_ends_in(
            line,
            home,
            dirs,
            world,
        ),
{
    match parse(line) {
        Ok(Some(command)) => {
            lemma_execute_ends_in(command, home, dirs, world);
        },
        _ => {},
    }
}

} // verus!
