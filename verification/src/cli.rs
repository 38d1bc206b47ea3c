//! Command-line dispatch for the `stork` binary.
//!
//! An [`Argparse`] holds registered commands (`--build`, ...) with the number
//! of arguments each takes, and an optional help text. [`Argparse::exec`]
//! decides what a given argument vector asks for; the caller carries out the
//! decision (printing, running the action, exiting).

use vstd::prelude::*;
use crate::text::{decimal, decimal_string, format_en, grouped_decimal};

verus! {

pub type ExitCode = i32;

pub const EXIT_SUCCESS: ExitCode = 0;

pub const EXIT_FAILURE: ExitCode = 1;

/// How many arguments a command takes: exactly one number, or any number in
/// an inclusive range.
#[derive(Clone, Copy, Debug, PartialEq, Eq, Structural)]
pub enum ValueOrRange {
    Value(u8),
    Range(u8, u8),
}

impl ValueOrRange {
    /// How the expected count reads in messages: "2", or "between 1 and 3".
    pub open spec fn description(self) -> Seq<char> {
        match self {
            ValueOrRange::Value(v) => decimal(v as nat),
            ValueOrRange::Range(min, max) => "between "@ + decimal(min as nat) + " and "@ + decimal(
                max as nat,
            ),
        }
    }

    /// Whether `count` arguments are accepted. The count is compared after
    /// truncation to a byte, so 257 arguments count as 1.
    pub open spec fn admits(self, count: nat) -> bool {
        let k = count % 256;
        match self {
            ValueOrRange::Value(v) => k == v,
            ValueOrRange::Range(min, max) => min <= k && k <= max,
        }
    }

    /// Renders the expected count for a message.
    pub fn describe(&self) -> (s: String)
        ensures
            s@ == self.description(),
    {
        match self {
            ValueOrRange::Value(v) => decimal_string(*v as u64),
            ValueOrRange::Range(min, max) => {
                let mut s = String::from_str("between ");
                s.append(decimal_string(*min as u64).as_str());
                s.append(" and ");
                s.append(decimal_string(*max as u64).as_str());
                proof {
                    reveal_strlit("between ");
                    reveal_strlit(" and ");
                }
                s
            },
        }
    }

    /// Whether `count` arguments are accepted.
    pub fn accepts(&self, count: usize) -> (b: bool)
        ensures
            b == self.admits(count as nat),
    {
        let k = (count % 256) as u8;
        match self {
            ValueOrRange::Value(v) => k == *v,
            ValueOrRange::Range(min, max) => *min <= k && k <= *max,
        }
    }
}

/// The arity that `register_range` records for the bounds `a` and `b`, given
/// in either order: a single value when they are equal, else the range from
/// the smaller to the larger.
pub open spec fn range_arity(a: u8, b: u8) -> ValueOrRange {
    let min = if a <= b { a } else { b };
    let max = if a <= b { b } else { a };
    if min == max {
        ValueOrRange::Value(min)
    } else {
        ValueOrRange::Range(min, max)
    }
}

/// A registered command: its name (without the leading "--"), its action,
/// and how many arguments follow it.
pub struct Command<A> {
    name: String,
    action: A,
    number_of_args: ValueOrRange,
}

/// What a command is, in specifications.
pub struct CommandView<A> {
    pub name: Seq<char>,
    pub action: A,
    pub number_of_args: ValueOrRange,
}

/// The registered commands, in registration order, and the help text.
pub struct Argparse<A> {
    commands: Vec<Command<A>>,
    help_text: Option<String>,
}

/// What an [`Argparse`] is, in specifications.
pub struct ArgparseView<A> {
    pub commands: Seq<CommandView<A>>,
    pub help_text: Option<Seq<char>>,
}

impl<A> View for Argparse<A> {
    type V = ArgparseView<A>;

    closed spec fn view(&self) -> ArgparseView<A> {
        ArgparseView {
            commands: Seq::new(
                self.commands@.len(),
                |i: int|
                    CommandView {
                        name: self.commands@[i].name@,
                        action: self.commands@[i].action,
                        number_of_args: self.commands@[i].number_of_args,
                    },
            ),
            help_text: match self.help_text {
                Some(t) => Some(t@),
                None => None,
            },
        }
    }
}

/// The flag that selects the command `name`: "--" followed by the name.
pub open spec fn flag_of(name: Seq<char>) -> Seq<char> {
    seq!['-', '-'] + name
}

/// Whether the arguments ask for help: there is no argument after the
/// program name, or the first one is "-h" or "--help".
pub open spec fn asks_for_help(args: Seq<Seq<char>>) -> bool {
    ||| args.len() < 2
    ||| args[1] == seq!['-', 'h']
    ||| args[1] == seq!['-', '-', 'h', 'e', 'l', 'p']
}

/// The position of the first command, from `start` on, whose flag is `flag`.
pub open spec fn find_command<A>(commands: Seq<CommandView<A>>, flag: Seq<char>, start: int) -> Option<
    int,
>
    decreases commands.len() - start,
{
    if start < 0 || start >= commands.len() {
        None
    } else if flag_of(commands[start].name) == flag {
        Some(start)
    } else {
        find_command(commands, flag, start + 1)
    }
}

/// The message for a command given the wrong number of arguments.
pub open spec fn wrong_count_message(name: Seq<char>, expected: ValueOrRange, count: nat) -> Seq<
    char,
> {
    "Wrong number of arguments given to `"@ + name + "` command. Expected "@
        + expected.description() + " but got "@ + decimal(count) + "."@
}

/// The message for a flag that names no command.
pub open spec fn not_found_message(flag: Seq<char>) -> Seq<char> {
    "Command not found: `"@ + flag + "`."@
}

/// What the arguments ask for, in specifications.
pub enum DispatchView<A> {
    ShowHelp(Seq<char>),
    Run(A),
    WrongArgCount(Seq<char>),
    NotFound(Seq<char>),
}

impl<A> DispatchView<A> {
    /// The exit code of the program once the decision is carried out (for
    /// `Run`, once the action has succeeded).
    pub open spec fn exit_code(self) -> ExitCode {
        match self {
            DispatchView::ShowHelp(_) => EXIT_SUCCESS,
            DispatchView::Run(_) => EXIT_SUCCESS,
            DispatchView::WrongArgCount(_) => EXIT_FAILURE,
            DispatchView::NotFound(_) => EXIT_FAILURE,
        }
    }
}

impl<A> ArgparseView<A> {
    /// The arguments can be dispatched without reading past their end: there
    /// is a first argument, or a help text to show in its place.
    pub open spec fn can_dispatch(self, args: Seq<Seq<char>>) -> bool {
        args.len() >= 2 || self.help_text is Some
    }

    /// What the arguments ask for: the help text when they ask for help and
    /// there is one; else the first command whose flag is the first argument,
    /// run when the number of remaining arguments suits it; else a message.
    pub open spec fn dispatch(self, args: Seq<Seq<char>>) -> DispatchView<A> {
        if asks_for_help(args) && self.help_text is Some {
            DispatchView::ShowHelp(self.help_text.unwrap())
        } else {
            match find_command(self.commands, args[1], 0) {
                Some(i) => {
                    let c = self.commands[i];
                    let count = (args.len() - 2) as nat;
                    if c.number_of_args.admits(count) {
                        DispatchView::Run(c.action)
                    } else {
                        DispatchView::WrongArgCount(
                            wrong_count_message(c.name, c.number_of_args, count),
                        )
                    }
                },
                None => DispatchView::NotFound(not_found_message(args[1])),
            }
        }
    }
}

/// The decision of [`Argparse::exec`]: print the help text, run an action,
/// or print an error message.
pub enum Dispatch<'a, A> {
    ShowHelp(String),
    Run(&'a A),
    WrongArgCount(String),
    NotFound(String),
}

impl<'a, A> View for Dispatch<'a, A> {
    type V = DispatchView<A>;

    open spec fn view(&self) -> DispatchView<A> {
        match self {
            Dispatch::ShowHelp(s) => DispatchView::ShowHelp(s@),
            Dispatch::Run(a) => DispatchView::Run(**a),
            Dispatch::WrongArgCount(s) => DispatchView::WrongArgCount(s@),
            Dispatch::NotFound(s) => DispatchView::NotFound(s@),
        }
    }
}

impl<'a, A> Dispatch<'a, A> {
    /// The exit code once the decision is carried out.
    pub fn exit_code(&self) -> (c: ExitCode)
        ensures
            c == self@.exit_code(),
    {
        match self {
            Dispatch::ShowHelp(_) => EXIT_SUCCESS,
            Dispatch::Run(_) => EXIT_SUCCESS,
            Dispatch::WrongArgCount(_) => EXIT_FAILURE,
            Dispatch::NotFound(_) => EXIT_FAILURE,
        }
    }
}

impl<A> Argparse<A> {
    /// A parser with no commands and no help text.
    pub fn new() -> (p: Argparse<A>)
        ensures
            p@.commands == Seq::<CommandView<A>>::empty(),
            p@.help_text is None,
    {
        Argparse { commands: Vec::new(), help_text: None }
    }

    /// Registers the command `--cmd_name`, which takes exactly
    /// `number_of_args` arguments. It goes after the commands registered
    /// before it, which take precedence over it for the same name.
    pub fn register(&mut self, cmd_name: &str, action: A, number_of_args: u8)
        ensures
            final(self)@.commands == old(self)@.commands.push(
                CommandView {
                    name: cmd_name@,
                    action,
                    number_of_args: ValueOrRange::Value(number_of_args),
                },
            ),
            final(self)@.help_text == old(self)@.help_text,
    {
        let command = Command {
            name: String::from_str(cmd_name),
            action,
            number_of_args: ValueOrRange::Value(number_of_args),
        };
        self.commands.push(command);
        proof {
            assert(final(self)@.commands =~= old(self)@.commands.push(
                CommandView {
                    name: cmd_name@,
                    action,
                    number_of_args: ValueOrRange::Value(number_of_args),
                },
            ));
        }
    }

    /// Registers the command `--cmd_name`, which takes between
    /// `args_range.0` and `args_range.1` arguments, the bounds given in
    /// either order.
    pub fn register_range(&mut self, cmd_name: &str, action: A, args_range: (u8, u8))
        ensures
            final(self)@.commands == old(self)@.commands.push(
                CommandView {
                    name: cmd_name@,
                    action,
                    number_of_args: range_arity(args_range.0, args_range.1),
                },
            ),
            final(self)@.help_text == old(self)@.help_text,
    {
        let min = if args_range.0 <= args_range.1 { args_range.0 } else { args_range.1 };
        let max = if args_range.0 <= args_range.1 { args_range.1 } else { args_range.0 };
        let number_of_args = if min == max {
            ValueOrRange::Value(min)
        } else {
            ValueOrRange::Range(min, max)
        };
        let command = Command { name: String::from_str(cmd_name), action, number_of_args };
        self.commands.push(command);
        proof {
            assert(final(self)@.commands =~= old(self)@.commands.push(
                CommandView {
                    name: cmd_name@,
                    action,
                    number_of_args: range_arity(args_range.0, args_range.1),
                },
            ));
        }
    }

    /// Sets the text shown when help is asked for.
    pub fn register_help(&mut self, text: &str)
        ensures
            final(self)@.commands == old(self)@.commands,
            final(self)@.help_text == Some(text@),
    {
        self.help_text = Some(String::from_str(text));
        proof {
            assert(final(self)@.commands =~= old(self)@.commands);
        }
    }

    /// Whether [`Argparse::exec`] can decide on `args`: they hold a first
    /// argument, or a help text is registered.
    pub fn can_dispatch(&self, args: &Vec<String>) -> (b: bool)
        ensures
            b == self@.can_dispatch(args.deep_view()),
    {
        args.len() >= 2 || self.help_text.is_some()
    }

    /// Decides what `args` (the program name first) ask for. The arguments
    /// must hold a first argument unless a help text is registered: without
    /// one there is nothing to decide on.
    pub fn exec(&self, args: &Vec<String>) -> (d: Dispatch<'_, A>)
        requires
            self@.can_dispatch(args.deep_view()),
        ensures
            d@ == self@.dispatch(args.deep_view()),
    {
        let ghost argv = args.deep_view();
        let ghost v = self@;
        assert(args@.len() == argv.len());
        let wants_help = if args.len() < 2 {
            true
        } else {
            let short = String::from_str("-h");
            let long = String::from_str("--help");
            proof {
                reveal_strlit("-h");
                reveal_strlit("--help");
                assert("-h"@ =~= seq!['-', 'h']);
                assert("--help"@ =~= seq!['-', '-', 'h', 'e', 'l', 'p']);
                assert(argv[1] == args@[1]@);
            }
            args[1] == short || args[1] == long
        };
        assert(wants_help == asks_for_help(argv));
        match &self.help_text {
            Some(text) => {
                if wants_help {
                    return Dispatch::ShowHelp(text.clone());
                }
            },
            None => {},
        }
        let flag = &args[1];
        assert(flag@ == argv[1]);
        let mut i: usize = 0;
        while i < self.commands.len()
            invariant
                i <= self.commands@.len(),
                v == self@,
                v.commands.len() == self.commands@.len(),
                argv == args.deep_view(),
                args@.len() >= 2,
                flag@ == argv[1],
                !(asks_for_help(argv) && v.help_text is Some),
                find_command(v.commands, argv[1], 0) == find_command(v.commands, argv[1], i as int),
            decreases self.commands@.len() - i,
        {
            let command = &self.commands[i];
            let mut dashed = String::from_str("--");
            dashed.append(command.name.as_str());
            proof {
                reveal_strlit("--");
                assert("--"@ =~= seq!['-', '-']);
                assert(v.commands[i as int].name == command.name@);
                assert(dashed@ =~= flag_of(command.name@));
            }
            if *flag == dashed {
                let count = args.len() - 2;
                assert(find_command(v.commands, argv[1], i as int) == Some(i as int));
                if command.number_of_args.accepts(count) {
                    return Dispatch::Run(&command.action);
                } else {
                    let mut message = String::from_str("Wrong number of arguments given to `");
                    message.append(command.name.as_str());
                    message.append("` command. Expected ");
                    message.append(command.number_of_args.describe().as_str());
                    message.append(" but got ");
                    message.append(decimal_string(count as u64).as_str());
                    message.append(".");
                    proof {
                        reveal_strlit("Wrong number of arguments given to `");
                        reveal_strlit("` command. Expected ");
                        reveal_strlit(" but got ");
                        reveal_strlit(".");
                    }
                    return Dispatch::WrongArgCount(message);
                }
            }
            i = i + 1;
        }
        let mut message = String::from_str("Command not found: `");
        message.append(flag.as_str());
        message.append("`.");
        proof {
            reveal_strlit("Command not found: `");
            reveal_strlit("`.");
        }
        Dispatch::NotFound(message)
    }
}

/// The first line of the report after an index is built: the number of
/// bytes written (grouped by thousands), the file, and a hint when nothing
/// was written.
pub open spec fn build_summary_text(bytes_written: nat, filename: Seq<char>) -> Seq<char> {
    "Index built, "@ + grouped_decimal(bytes_written) + " bytes written to "@ + filename + ". "@
        + if bytes_written != 0 {
        Seq::<char>::empty()
    } else {
        "(Maybe you're in debug mode.)"@
    }
}

/// Renders the first line of the report after an index is built.
pub fn build_summary(bytes_written: usize, filename: &str) -> (s: String)
    ensures
        s@ == build_summary_text(bytes_written as nat, filename@),
{
    let mut s = String::from_str("Index built, ");
    s.append(format_en(bytes_written).as_str());
    s.append(" bytes written to ");
    s.append(filename);
    s.append(". ");
    if bytes_written == 0 {
        s.append("(Maybe you're in debug mode.)");
    }
    proof {
        reveal_strlit("Index built, ");
        reveal_strlit(" bytes written to ");
        reveal_strlit(". ");
        reveal_strlit("(Maybe you're in debug mode.)");
    }
    s
}

/// The parser `p` with the command `c` registered after its commands.
pub open spec fn with_command<A>(p: ArgparseView<A>, c: CommandView<A>) -> ArgparseView<A> {
    ArgparseView { commands: p.commands.push(c), help_text: p.help_text }
}

proof fn lemma_find_after_push<A>(
    commands: Seq<CommandView<A>>,
    c: CommandView<A>,
    flag: Seq<char>,
    start: int,
)
    requires
        0 <= start <= commands.len(),
    ensures
        find_command(commands.push(c), flag, start) == (if find_command(
            commands,
            flag,
            start,
        ) is Some {
            find_command(commands, flag, start)
        } else if flag_of(c.name) == flag {
            Some(commands.len() as int)
        } else {
            None
        }),
    decreases commands.len() - start,
{
    if start < commands.len() {
        assert(commands.push(c)[start] == commands[start]);
        lemma_find_after_push(commands, c, flag, start + 1);
    } else {
        assert(commands.push(c)[start] == c);
        assert(find_command(commands.push(c), flag, start + 1) is None);
    }
}

proof fn lemma_find_reaches<A>(commands: Seq<CommandView<A>>, flag: Seq<char>, start: int, j: int)
    requires
        0 <= start <= j < commands.len(),
        flag_of(commands[j].name) == flag,
    ensures
        find_command(commands, flag, start) is Some,
    decreases j - start,
{
    if flag_of(commands[start].name) != flag {
        lemma_find_reaches(commands, flag, start + 1, j);
    }
}

proof fn lemma_find_none<A>(commands: Seq<CommandView<A>>, flag: Seq<char>, start: int)
    requires
        0 <= start <= commands.len(),
        forall|j: int| start <= j < commands.len() ==> flag_of(#[trigger] commands[j].name) != flag,
    ensures
        find_command(commands, flag, start) is None,
    decreases commands.len() - start,
{
    if start < commands.len() {
        lemma_find_none(commands, flag, start + 1);
    }
}

/// A command registered under a new name runs when its flag is followed by
/// exactly the number of arguments it was registered with (counted modulo
/// 256), unless the arguments ask for help and a help text is registered.
pub proof fn registered_command_runs<A>(
    p: ArgparseView<A>,
    name: Seq<char>,
    action: A,
    number_of_args: u8,
    args: Seq<Seq<char>>,
)
    requires
        forall|j: int| 0 <= j < p.commands.len() ==> #[trigger] p.commands[j].name != name,
        args.len() >= 2,
        args[1] == flag_of(name),
        (args.len() - 2) % 256 == number_of_args,
        !(asks_for_help(args) && p.help_text is Some),
    ensures
        with_command(
            p,
            CommandView { name, action, number_of_args: ValueOrRange::Value(number_of_args) },
        ).dispatch(args) == DispatchView::Run(action),
{
    let c = CommandView { name, action, number_of_args: ValueOrRange::Value(number_of_args) };
    assert forall|j: int| 0 <= j < p.commands.len() implies flag_of(
        #[trigger] p.commands[j].name,
    ) != args[1] by {
        if flag_of(p.commands[j].name) == args[1] {
            assert(p.commands[j].name =~= flag_of(p.commands[j].name).subrange(
                2,
                flag_of(p.commands[j].name).len() as int,
            ));
            assert(name =~= flag_of(name).subrange(2, flag_of(name).len() as int));
        }
    }
    lemma_find_none(p.commands, args[1], 0);
    lemma_find_after_push(p.commands, c, args[1], 0);
    assert(p.commands.push(c)[p.commands.len() as int] == c);
}

/// Registering a command under a name that is already registered changes
/// nothing that any arguments ask for: the earlier command keeps the name.
pub proof fn earlier_command_shadows<A>(
    p: ArgparseView<A>,
    c: CommandView<A>,
    args: Seq<Seq<char>>,
)
    requires
        exists|j: int| 0 <= j < p.commands.len() && #[trigger] p.commands[j].name == c.name,
    ensures
        with_command(p, c).dispatch(args) == p.dispatch(args),
{
    let j = choose|j: int| 0 <= j < p.commands.len() && #[trigger] p.commands[j].name == c.name;
    lemma_find_after_push(p.commands, c, args[1], 0);
    if flag_of(c.name) == args[1] {
        lemma_find_reaches(p.commands, args[1], 0, j);
    }
    let found = find_command(p.commands, args[1], 0);
    if found is Some {
        let i = found.unwrap();
        lemma_find_position(p.commands, args[1], 0);
        assert(p.commands.push(c)[i] == p.commands[i]);
    }
}

proof fn lemma_find_position<A>(commands: Seq<CommandView<A>>, flag: Seq<char>, start: int)
    requires
        find_command(commands, flag, start) is Some,
    ensures
        start <= find_command(commands, flag, start).unwrap() < commands.len(),
        flag_of(commands[find_command(commands, flag, start).unwrap()].name) == flag,
    decreases commands.len() - start,
{
    if flag_of(commands[start].name) != flag {
        lemma_find_position(commands, flag, start + 1);
    }
}

/// The bounds given to `register_range` may come in either order, and the
/// recorded arity admits exactly the counts (modulo 256) between them.
pub proof fn range_arity_is_symmetric(a: u8, b: u8, count: nat)
    ensures
        range_arity(a, b) == range_arity(b, a),
        range_arity(a, b).admits(count) <==> ((a <= count % 256 && count % 256 <= b) || (b
            <= count % 256 && count % 256 <= a)),
        (range_arity(a, b) is Value) <==> a == b,
        range_arity(a, b) matches ValueOrRange::Value(v) ==> v == a,
        range_arity(a, b) matches ValueOrRange::Range(lo, hi) ==> (lo < hi && ((lo == a && hi
            == b) || (lo == b && hi == a))),
{
}

/// The help text is shown exactly when the arguments ask for help and a help
/// text is registered, and the program then exits successfully.
pub proof fn help_is_shown_exactly_when_asked<A>(p: ArgparseView<A>, args: Seq<Seq<char>>)
    ensures
        (p.dispatch(args) is ShowHelp) <==> (p.help_text is Some && (args.len() < 2 || args[1]
            == seq!['-', 'h'] || args[1] == seq!['-', '-', 'h', 'e', 'l', 'p'])),
        p.dispatch(args) is ShowHelp ==> p.dispatch(args) == DispatchView::<A>::ShowHelp(
            p.help_text.unwrap(),
        ) && p.dispatch(args).exit_code() == EXIT_SUCCESS,
{
}

/// The program fails exactly when neither the help text is shown nor a
/// command runs.
pub proof fn failure_exactly_when_nothing_runs<A>(p: ArgparseView<A>, args: Seq<Seq<char>>)
    ensures
        (p.dispatch(args).exit_code() == 1) <==> !(p.dispatch(args) is ShowHelp || p.dispatch(
            args,
        ) is Run),
        (p.dispatch(args).exit_code() == 0) <==> (p.dispatch(args) is ShowHelp || p.dispatch(
            args,
        ) is Run),
{
}

/// A parser can decide on any arguments that hold a first argument, and on
/// all arguments once a help text is registered; only arguments without a
/// first argument, on a parser without help, are out of reach.
pub proof fn dispatch_needs_a_first_argument_or_help<A>(p: ArgparseView<A>, args: Seq<Seq<char>>)
    ensures
        args.len() >= 2 ==> p.can_dispatch(args),
        p.help_text is Some ==> p.can_dispatch(args),
        (args.len() < 2 && p.help_text is None) ==> !p.can_dispatch(args),
{
}

proof fn lemma_find_first<A>(commands: Seq<CommandView<A>>, flag: Seq<char>, start: int, i: int)
    requires
        0 <= start <= i < commands.len(),
        flag == seq!['-', '-'] + commands[i].name,
        forall|j: int| 0 <= j < i ==> flag != seq!['-', '-'] + #[trigger] commands[j].name,
    ensures
        find_command(commands, flag, start) == Some(i),
    decreases i - start,
{
    if start < i {
        assert(flag != seq!['-', '-'] + commands[start].name);
        lemma_find_first(commands, flag, start + 1, i);
    }
}

/// When the first argument is "--" followed by the name of a registered
/// command, and the first such command is `commands[i]`, and no help is
/// shown, that command runs exactly when the number of remaining arguments
/// (taken modulo 256) is its registered count, or lies in its registered
/// range; otherwise the decision is the wrong-count message, naming the
/// command, what it expects and how many arguments were given.
pub proof fn command_runs_exactly_when_count_fits<A>(
    p: ArgparseView<A>,
    args: Seq<Seq<char>>,
    i: int,
)
    requires
        0 <= i < p.commands.len(),
        args.len() >= 2,
        args[1] == seq!['-', '-'] + p.commands[i].name,
        forall|j: int| 0 <= j < i ==> args[1] != seq!['-', '-'] + #[trigger] p.commands[j].name,
        !(p.help_text is Some && (args[1] == seq!['-', 'h'] || args[1] == seq![
            '-',
            '-',
            'h',
            'e',
            'l',
            'p',
        ])),
    ensures
        p.commands[i].number_of_args matches ValueOrRange::Value(v) ==> ((p.dispatch(args)
            == DispatchView::Run(p.commands[i].action)) <==> (args.len() - 2) % 256 == v),
        p.commands[i].number_of_args matches ValueOrRange::Range(lo, hi) ==> ((p.dispatch(args)
            == DispatchView::Run(p.commands[i].action)) <==> (lo <= (args.len() - 2) % 256
            && (args.len() - 2) % 256 <= hi)),
        p.commands[i].number_of_args matches ValueOrRange::Value(v) ==> ((args.len() - 2) % 256
            != v ==> p.dispatch(args) == DispatchView::<A>::WrongArgCount(
            "Wrong number of arguments given to `"@ + p.commands[i].name
                + "` command. Expected "@ + decimal(v as nat) + " but got "@ + decimal(
                (args.len() - 2) as nat,
            ) + "."@,
        )),
        p.commands[i].number_of_args matches ValueOrRange::Range(lo, hi) ==> (!(lo <= (args.len()
            - 2) % 256 && (args.len() - 2) % 256 <= hi) ==> p.dispatch(args)
            == DispatchView::<A>::WrongArgCount(
            "Wrong number of arguments given to `"@ + p.commands[i].name
                + "` command. Expected "@ + "between "@ + decimal(lo as nat) + " and "@ + decimal(
                hi as nat,
            ) + " but got "@ + decimal((args.len() - 2) as nat) + "."@,
        )),
{
    lemma_find_first(p.commands, args[1], 0, i);
    match p.commands[i].number_of_args {
        ValueOrRange::Value(v) => {},
        ValueOrRange::Range(lo, hi) => {
            let name = p.commands[i].name;
            let count = (args.len() - 2) as nat;
            assert(wrong_count_message(name, p.commands[i].number_of_args, count)
                =~= "Wrong number of arguments given to `"@ + name + "` command. Expected "@
                + "between "@ + decimal(lo as nat) + " and "@ + decimal(hi as nat) + " but got "@
                + decimal(count) + "."@);
        },
    }
}

/// When the first argument is no registered command's "--" flag and no help
/// is shown, the decision is the not-found message quoting that argument.
pub proof fn unknown_flag_is_reported<A>(p: ArgparseView<A>, args: Seq<Seq<char>>)
    requires
        args.len() >= 2,
        forall|j: int|
            0 <= j < p.commands.len() ==> args[1] != seq!['-', '-'] + #[trigger] p.commands[j].name,
        !(p.help_text is Some && (args[1] == seq!['-', 'h'] || args[1] == seq![
            '-',
            '-',
            'h',
            'e',
            'l',
            'p',
        ])),
    ensures
        p.dispatch(args) == DispatchView::<A>::NotFound(
            "Command not found: `"@ + args[1] + "`."@,
        ),
{
    assert forall|j: int| 0 <= j < p.commands.len() implies flag_of(#[trigger] p.commands[j].name)
        != args[1] by {
        assert(args[1] != seq!['-', '-'] + p.commands[j].name);
    }
    lemma_find_none(p.commands, args[1], 0);
}

/// The build report names the output file verbatim: it reads
/// "Index built, ", the grouped byte count, " bytes written to ", the file
/// name exactly as given, ". ", and the debug-mode hint exactly when no
/// byte was written.
pub proof fn build_summary_names_the_file(bytes_written: nat, filename: Seq<char>)
    ensures
        build_summary_text(bytes_written, filename).len() == 33int + grouped_decimal(
            bytes_written,
        ).len() + filename.len() + if bytes_written == 0 {
            29int
        } else {
            0int
        },
        build_summary_text(bytes_written, filename).subrange(0, 13) == "Index built, "@,
        build_summary_text(bytes_written, filename).subrange(
            13,
            13int + grouped_decimal(bytes_written).len(),
        ) == grouped_decimal(bytes_written),
        build_summary_text(bytes_written, filename).subrange(
            13int + grouped_decimal(bytes_written).len(),
            31int + grouped_decimal(bytes_written).len(),
        ) == " bytes written to "@,
        build_summary_text(bytes_written, filename).subrange(
            31int + grouped_decimal(bytes_written).len(),
            31int + grouped_decimal(bytes_written).len() + filename.len(),
        ) == filename,
        build_summary_text(bytes_written, filename).subrange(
            31int + grouped_decimal(bytes_written).len() + filename.len(),
            33int + grouped_decimal(bytes_written).len() + filename.len(),
        ) == ". "@,
        bytes_written == 0 ==> build_summary_text(bytes_written, filename).subrange(
            33int + grouped_decimal(bytes_written).len() + filename.len(),
            62int + grouped_decimal(bytes_written).len() + filename.len(),
        ) == "(Maybe you're in debug mode.)"@,
{
    reveal_strlit("Index built, ");
    reveal_strlit(" bytes written to ");
    reveal_strlit(". ");
    reveal_strlit("(Maybe you're in debug mode.)");
    let s = build_summary_text(bytes_written, filename);
    let g = grouped_decimal(bytes_written);
    let a = "Index built, "@;
    let b = " bytes written to "@;
    let c = ". "@;
    let h = if bytes_written != 0 {
        Seq::<char>::empty()
    } else {
        "(Maybe you're in debug mode.)"@
    };
    assert(s == a + g + b + filename + c + h);
    let lg = g.len() as int;
    let lf = filename.len() as int;
    assert(s.subrange(0, 13) =~= a);
    assert(s.subrange(13, 13 + lg) =~= g);
    assert(s.subrange(13 + lg, 31 + lg) =~= b);
    assert(s.subrange(31 + lg, 31 + lg + lf) =~= filename);
    assert(s.subrange(31 + lg + lf, 33 + lg + lf) =~= c);
    if bytes_written == 0 {
        assert(s.subrange(33 + lg + lf, 62 + lg + lf) =~= h);
    }
}

} // verus!
