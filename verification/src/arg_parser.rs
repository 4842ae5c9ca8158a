//! The command-line surface: classifying the command word, reading flags,
//! and assembling the run's options. Reading the process arguments is I/O
//! and stays with the caller; everything from the raw words on is here.

use vstd::prelude::*;

use crate::seq_facts::{lemma_filter_all_or_none, lemma_filter_push};
use crate::strings::{
    contains_str, has_prefix, has_substring, parse_usize, parse_usize_spec, split_char, split_spec,
    starts_with, str_eq,
};
use vstd::string::StrSliceExecFns;

verus! {

/// Raised when the command line cannot be read; carries the reason shown to
/// the user. An empty reason means no arguments were passed at all.
#[derive(Debug)]
pub struct ParsingError {
    reason: String,
}

impl View for ParsingError {
    type V = Seq<char>;

    closed spec fn view(&self) -> Seq<char> {
        self.reason@
    }
}

impl Clone for ParsingError {
    fn clone(&self) -> (r: Self)
        ensures
            r@ == self@,
    {
        ParsingError { reason: self.reason.clone() }
    }
}

impl Default for ParsingError {
    /// The error that stands for a bare invocation: no reason at all.
    fn default() -> (r: Self)
        ensures
            r@.len() == 0,
    {
        ParsingError { reason: String::new() }
    }
}

impl ParsingError {
    /// True when this error carries no reason — the caller passed no
    /// arguments, and help should be shown instead of a complaint.
    pub fn no_args(&self) -> (r: bool)
        ensures
            r == (self@.len() == 0),
    {
        self.reason.as_str().is_empty()
    }

    /// The reason shown to the user.
    pub fn reason(&self) -> (r: &str)
        ensures
            r@ == self@,
    {
        self.reason.as_str()
    }
}

/// Contains what was passed with a flag.
#[derive(Debug, Clone)]
pub struct Flag<T>(T);

impl<T> Flag<T> {
    /// The wrapped value.
    pub closed spec fn spec_inner(&self) -> T {
        self.0
    }
}

impl<T> Flag<T> where T: Clone {
    pub fn new(val: T) -> (f: Flag<T>)
        ensures
            f.spec_inner() == val,
    {
        Flag(val)
    }

    pub fn unwrap_ref(&self) -> (r: &T)
        ensures
            *r == self.spec_inner(),
    {
        &self.0
    }
}

/// The command word that opens the command line.
#[derive(Debug, Clone, Copy, PartialEq, Eq, Structural)]
pub enum CommandLineArgs {
    Generate,
    Help,
    New,
    UnknownArg,
}

/// Which command a word names.
pub open spec fn command_of(s: Seq<char>) -> CommandLineArgs {
    if s == "gen"@ || s == "generate"@ || s == "g"@ {
        CommandLineArgs::Generate
    } else if s == "help"@ || s == "h"@ {
        CommandLineArgs::Help
    } else if s == "init"@ || s == "new"@ {
        CommandLineArgs::New
    } else {
        CommandLineArgs::UnknownArg
    }
}

impl CommandLineArgs {
    /// Classifies the command word.
    pub fn from(value: String) -> (r: CommandLineArgs)
        ensures
            r == command_of(value@),
    {
        if str_eq(value.as_str(), "gen") || str_eq(value.as_str(), "generate") || str_eq(
            value.as_str(),
            "g",
        ) {
            CommandLineArgs::Generate
        } else if str_eq(value.as_str(), "help") || str_eq(value.as_str(), "h") {
            CommandLineArgs::Help
        } else if str_eq(value.as_str(), "init") || str_eq(value.as_str(), "new") {
            CommandLineArgs::New
        } else {
            CommandLineArgs::UnknownArg
        }
    }
}

/// Mathematical model of a [`Flags`] value; an unknown flag's reason text is
/// not part of the model.
pub enum FlagsView {
    SaveLogs(bool),
    TaskPerBatch(int),
    UnknownFlag,
}

/// One recognized flag of the command line.
#[derive(Debug)]
pub enum Flags {
    SaveLogs(bool),
    TaskPerBatch(usize),
    UnknownFlag(ParsingError),
}

impl View for Flags {
    type V = FlagsView;

    open spec fn view(&self) -> FlagsView {
        match self {
            Flags::SaveLogs(b) => FlagsView::SaveLogs(*b),
            Flags::TaskPerBatch(n) => FlagsView::TaskPerBatch(*n as int),
            Flags::UnknownFlag(_) => FlagsView::UnknownFlag,
        }
    }
}

/// Whether a word uses one of the two batch-size flag spellings.
pub open spec fn is_batch_flag(s: Seq<char>) -> bool {
    has_prefix(s, "--task-num"@) || has_prefix(s, "--batch-size"@)
}

/// Which flag a word names: the batch-size flag must carry `=` and a number
/// that fits; the save-logs flag has three spellings; everything else is
/// unknown.
pub open spec fn flag_of(s: Seq<char>) -> FlagsView {
    if is_batch_flag(s) {
        let parts = split_spec(s, '=');
        if parts.len() == 1 {
            FlagsView::UnknownFlag
        } else {
            match parse_usize_spec(parts[1]) {
                Some(v) => FlagsView::TaskPerBatch(v),
                None => FlagsView::UnknownFlag,
            }
        }
    } else if s == "--sl"@ || s == "--save-logs"@ || s == "--logged"@ {
        FlagsView::SaveLogs(true)
    } else {
        FlagsView::UnknownFlag
    }
}

impl Flags {
    /// Wraps a flag's payload for the options table.
    pub fn into_flag<T: Clone>(inner: T) -> (f: Flag<T>)
        ensures
            f.spec_inner() == inner,
    {
        Flag::new(inner)
    }

    /// Classifies one flag word.
    pub fn from(value: String) -> (r: Flags)
        ensures
            r@ == flag_of(value@),
    {
        if starts_with(value.as_str(), "--task-num") || starts_with(
            value.as_str(),
            "--batch-size",
        ) {
            let flag = split_char(value.as_str(), '=');
            if flag.len() == 1 {
                return Flags::UnknownFlag(
                    ParsingError {
                        reason: "the batch size flag needs a value, given after an equals sign".to_owned(),
                    },
                );
            }
            proof {
                assert(flag.deep_view()[1] == split_spec(value@, '=')[1]);
            }
            match parse_usize(flag[1].as_str()) {
                Some(num) => Flags::TaskPerBatch(num),
                None => Flags::UnknownFlag(
                    ParsingError { reason: "expected a number after the equals sign".to_owned() },
                ),
            }
        } else if str_eq(value.as_str(), "--sl") || str_eq(value.as_str(), "--save-logs")
            || str_eq(value.as_str(), "--logged") {
            Flags::SaveLogs(true)
        } else {
            Flags::UnknownFlag(
                ParsingError {
                    reason: "unknown flag; the help command lists every flag the generate command takes".to_owned(),
                },
            )
        }
    }
}

/// Mathematical model of an [`ArgsParser`].
pub struct ArgsParserView {
    pub args: Seq<Seq<char>>,
    pub flags: Seq<Seq<char>>,
}

/// Splits the raw command line into its plain arguments — the leading
/// program name dropped — and its `--` flags.
#[derive(Debug)]
pub struct ArgsParser {
    args: Vec<String>,
    flags: Vec<String>,
}

impl View for ArgsParser {
    type V = ArgsParserView;

    closed spec fn view(&self) -> ArgsParserView {
        ArgsParserView { args: self.args.deep_view(), flags: self.flags.deep_view() }
    }
}

/// Mathematical model of an [`Options`] value.
pub struct OptionsView {
    pub command: CommandLineArgs,
    pub file: Option<Seq<char>>,
    pub save_logs: bool,
    pub task_num: int,
}

/// Everything one invocation asks for: the command, the template file if
/// one was named, and the two flags.
#[derive(Debug)]
pub struct Options {
    command: CommandLineArgs,
    file: Option<String>,
    save_logs: Flag<bool>,
    task_num: Flag<usize>,
}

impl View for Options {
    type V = OptionsView;

    closed spec fn view(&self) -> OptionsView {
        OptionsView {
            command: self.command,
            file: match self.file {
                Some(f) => Some(f@),
                None => None,
            },
            save_logs: self.save_logs.spec_inner(),
            task_num: self.task_num.spec_inner() as int,
        }
    }
}

impl Default for Options {
    /// No command, no file, logging off, batch size left for the default.
    fn default() -> (r: Options)
        ensures
            r@.command == CommandLineArgs::UnknownArg,
            r@.file is None,
            r@.save_logs == false,
            r@.task_num == 0,
    {
        Options {
            command: CommandLineArgs::UnknownArg,
            file: None,
            save_logs: Flag(false),
            task_num: Flag(0),
        }
    }
}

impl Options {
    pub fn get_command(&self) -> (r: CommandLineArgs)
        ensures
            r == self@.command,
    {
        self.command
    }

    pub fn get_file(&self) -> (r: Option<String>)
        ensures
            match self@.file {
                Some(f) => r is Some && r->0@ == f,
                None => r is None,
            },
    {
        match &self.file {
            Some(f) => Some(f.clone()),
            None => None,
        }
    }

    pub fn get_save_logs_flag(&self) -> (r: &bool)
        ensures
            *r == self@.save_logs,
    {
        self.save_logs.unwrap_ref()
    }

    /// The configured batch size, normalized: zero — the flag's resting
    /// value — becomes the documented default of ten, so the result is
    /// always at least one.
    pub fn get_batch_size_flag(&self) -> (r: usize)
        ensures
            r as int == (if self@.task_num == 0 {
                10int
            } else {
                self@.task_num
            }),
            r >= 1,
    {
        let size = *self.task_num.unwrap_ref();
        if size == 0 {
            10
        } else {
            size
        }
    }
}

/// The first argument naming a template file, if any: the first one with
/// the template extension somewhere in it.
pub open spec fn first_template_arg(args: Seq<Seq<char>>, j: int) -> Option<Seq<char>>
    decreases args.len() - j,
    when 0 <= j <= args.len()
{
    if j >= args.len() {
        None
    } else if has_substring(args[j], ".tmplt"@) {
        Some(args[j])
    } else {
        first_template_arg(args, j + 1)
    }
}

/// The flag words folded into the two options, in order, a later flag
/// shadowing an earlier one; an unknown flag stops the fold.
pub open spec fn fold_flags(flags: Seq<Seq<char>>, j: int, save_logs: bool, task_num: int) -> Result<
    (bool, int),
    (),
>
    decreases flags.len() - j,
    when 0 <= j <= flags.len()
{
    if j >= flags.len() {
        Ok((save_logs, task_num))
    } else {
        match flag_of(flags[j]) {
            FlagsView::SaveLogs(b) => fold_flags(flags, j + 1, b, task_num),
            FlagsView::TaskPerBatch(n) => fold_flags(flags, j + 1, save_logs, n),
            FlagsView::UnknownFlag => Err(()),
        }
    }
}

impl ArgsParser {
    /// Splits the raw command line: every `--` word is a flag, the first
    /// remaining word — the program's own name — is dropped, and the rest
    /// are the plain arguments.
    pub fn new(args: Vec<String>) -> (p: ArgsParser)
        requires
            args.deep_view().len() >= 1,
        ensures
            p@.flags == args.deep_view().filter(|v: Seq<char>| has_prefix(v, "--"@)),
            p@.args == args.deep_view().drop_first().filter(
                |v: Seq<char>| !has_prefix(v, "--"@),
            ),
    {
        let ghost av = args.deep_view();
        let ghost is_flag = |v: Seq<char>| has_prefix(v, "--"@);
        let ghost not_flag = |v: Seq<char>| !has_prefix(v, "--"@);
        let mut flags: Vec<String> = Vec::new();
        let mut i: usize = 0;
        proof {
            assert(av.take(0) =~= Seq::<Seq<char>>::empty());
            lemma_filter_all_or_none(av.take(0), is_flag);
            assert(flags.deep_view() =~= Seq::<Seq<char>>::empty());
        }
        while i < args.len()
            invariant
                0 <= i <= args.len(),
                av == args.deep_view(),
                is_flag == (|v: Seq<char>| has_prefix(v, "--"@)),
                flags.deep_view() == av.take(i as int).filter(is_flag),
            decreases args.len() - i,
        {
            proof {
                assert(av.take(i + 1) =~= av.take(i as int).push(av[i as int]));
                lemma_filter_push(av.take(i as int), is_flag, av[i as int]);
            }
            if starts_with(args[i].as_str(), "--") {
                flags.push(args[i].clone());
                proof {
                    assert(flags.deep_view() =~= av.take(i + 1).filter(is_flag));
                }
            }
            i = i + 1;
        }
        proof {
            assert(av.take(args@.len() as int) =~= av);
        }
        let ghost rest = av.drop_first();
        let mut plain: Vec<String> = Vec::new();
        let mut j: usize = 1;
        proof {
            assert(rest.take(0) =~= Seq::<Seq<char>>::empty());
            lemma_filter_all_or_none(rest.take(0), not_flag);
            assert(plain.deep_view() =~= Seq::<Seq<char>>::empty());
        }
        while j < args.len()
            invariant
                1 <= j <= args.len(),
                av == args.deep_view(),
                av.len() >= 1,
                rest == av.drop_first(),
                not_flag == (|v: Seq<char>| !has_prefix(v, "--"@)),
                plain.deep_view() == rest.take(j - 1).filter(not_flag),
            decreases args.len() - j,
        {
            proof {
                assert(rest[j - 1] == av[j as int]);
                assert(rest.take(j as int) =~= rest.take(j - 1).push(rest[j - 1]));
                lemma_filter_push(rest.take(j - 1), not_flag, rest[j - 1]);
            }
            if !starts_with(args[j].as_str(), "--") {
                plain.push(args[j].clone());
                proof {
                    assert(plain.deep_view() =~= rest.take(j as int).filter(not_flag));
                }
            }
            j = j + 1;
        }
        proof {
            assert(rest.take(av.len() - 1) =~= rest);
        }
        ArgsParser { args: plain, flags }
    }

    /// Assembles the options: the first template-file argument if any, the
    /// command named by the first plain argument, and the flags folded in
    /// order — the first unknown flag aborts with its reason.
    pub fn parse_options(&self) -> (r: Result<Options, ParsingError>)
        requires
            self@.args.len() > 0,
        ensures
            match r {
                Ok(o) => {
                    &&& fold_flags(self@.flags, 0, false, 0) == Ok::<_, ()>(
                        (o@.save_logs, o@.task_num),
                    )
                    &&& o@.command == command_of(self@.args[0])
                    &&& o@.file == first_template_arg(self@.args, 0)
                },
                Err(_) => fold_flags(self@.flags, 0, false, 0) is Err,
            },
    {
        let ghost av = self@.args;
        let mut file: Option<String> = None;
        let mut i: usize = 0;
        while i < self.args.len()
            invariant
                0 <= i <= self.args.len(),
                av == self@.args,
                match file {
                    Some(f) => first_template_arg(av, 0) == Some(f@),
                    None => first_template_arg(av, 0) == first_template_arg(av, i as int),
                },
            decreases self.args.len() - i,
        {
            if file.is_none() && contains_str(self.args[i].as_str(), ".tmplt") {
                file = Some(self.args[i].clone());
            }
            i = i + 1;
        }
        let mut options = Options::default();
        options.file = file;
        options.command = CommandLineArgs::from(self.args[0].clone());
        let ghost fv = self@.flags;
        let mut k: usize = 0;
        let ghost save0 = options@.save_logs;
        let ghost num0 = options@.task_num;
        proof {
            assert(save0 == false);
            assert(num0 == 0);
        }
        while k < self.flags.len()
            invariant
                0 <= k <= self.flags.len(),
                fv == self@.flags,
                av == self@.args,
                options@.command == command_of(av[0]),
                options@.file == first_template_arg(av, 0),
                fold_flags(fv, 0, false, 0) == fold_flags(
                    fv,
                    k as int,
                    options@.save_logs,
                    options@.task_num,
                ),
            decreases self.flags.len() - k,
        {
            let flag = Flags::from(self.flags[k].clone());
            proof {
                assert(flag@ == flag_of(fv[k as int]));
            }
            match flag {
                Flags::SaveLogs(inner) => {
                    options.save_logs = Flags::into_flag(inner);
                },
                Flags::TaskPerBatch(inner) => {
                    options.task_num = Flags::into_flag(inner);
                },
                Flags::UnknownFlag(error) => {
                    return Err(error);
                },
            }
            k = k + 1;
        }
        Ok(options)
    }
}

} // verus!
