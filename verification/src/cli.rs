use vstd::prelude::*;

use crate::datetime::{parse_dt, spec_parse_dt, DateTime};
use crate::strutil::{parse_u32, spec_parse_u32, string_eq};

verus! {

/// A parsed subcommand, with its required arguments already validated:
/// command logic never sees a malformed date or id.
pub enum Commands {
    /// Add a new task.
    Add { name: String, due: DateTime },
    /// Create the database schema.
    Init,
    /// Mark a task as done.
    Done { id: u32 },
    /// List all tasks.
    List,
    /// Attach a tag to a task.
    Tag { id: u32, tag: String },
}

/// The mathematical image of a subcommand.
pub enum SpecCommands {
    Add { name: Seq<char>, due: DateTime },
    Init,
    Done { id: u32 },
    List,
    Tag { id: u32, tag: Seq<char> },
}

impl View for Commands {
    type V = SpecCommands;

    open spec fn view(&self) -> SpecCommands {
        match self {
            Commands::Add { name, due } => SpecCommands::Add { name: name@, due: *due },
            Commands::Init => SpecCommands::Init,
            Commands::Done { id } => SpecCommands::Done { id: *id },
            Commands::List => SpecCommands::List,
            Commands::Tag { id, tag } => SpecCommands::Tag { id: *id, tag: tag@ },
        }
    }
}

/// A parsed invocation: the global options and the subcommand, if one was
/// given. The config path and debug count are accepted and recorded but
/// drive no behaviour.
pub struct Cli {
    pub config: Option<String>,
    pub debug: u8,
    pub command: Option<Commands>,
}

/// The mathematical image of a parsed invocation.
pub struct SpecCli {
    pub config: Option<Seq<char>>,
    pub debug: u8,
    pub command: Option<SpecCommands>,
}

impl View for Cli {
    type V = SpecCli;

    open spec fn view(&self) -> SpecCli {
        SpecCli {
            config: match &self.config {
                Some(s) => Some(s@),
                None => None,
            },
            debug: self.debug,
            command: match &self.command {
                Some(c) => Some(c@),
                None => None,
            },
        }
    }
}

/// What parsing the argument list produced: a usable invocation, a request
/// for the version or help text, or a usage error.
pub enum ParseOutcome {
    Parsed(Cli),
    Version,
    Help,
    Invalid,
}

/// The mathematical image of a parse outcome.
pub enum SpecParseOutcome {
    Parsed(SpecCli),
    Version,
    Help,
    Invalid,
}

impl View for ParseOutcome {
    type V = SpecParseOutcome;

    open spec fn view(&self) -> SpecParseOutcome {
        match self {
            ParseOutcome::Parsed(c) => SpecParseOutcome::Parsed(c@),
            ParseOutcome::Version => SpecParseOutcome::Version,
            ParseOutcome::Help => SpecParseOutcome::Help,
            ParseOutcome::Invalid => SpecParseOutcome::Invalid,
        }
    }
}

/// The image of an optional owned string.
pub open spec fn spec_opt_str(o: Option<String>) -> Option<Seq<char>> {
    match o {
        Some(s) => Some(s@),
        None => None,
    }
}

/// A token that looks like an option: it starts with a dash.
pub open spec fn spec_is_flag(a: Seq<char>) -> bool {
    a.len() >= 1 && a[0] == '-'
}

/// The grammar of the argument list after the program name: global options
/// first (`--config <FILE>`/`-c`, a repeatable `--debug`/`-d`,
/// `--version`/`-V`, `--help`/`-h`), then at most one subcommand with its
/// own options. Anything else is a usage error.
pub open spec fn spec_parse_args(args: Seq<Seq<char>>) -> SpecParseOutcome {
    spec_parse_globals(args, 1, None, 0)
}

/// Parses global options from position `i` on, accumulating the config
/// path and the debug count, until the subcommand or the end.
pub open spec fn spec_parse_globals(
    args: Seq<Seq<char>>,
    i: int,
    config: Option<Seq<char>>,
    debug: u8,
) -> SpecParseOutcome
    decreases args.len() - i,
{
    if i >= args.len() {
        SpecParseOutcome::Parsed(SpecCli { config, debug, command: None })
    } else {
        let a = args[i];
        if a == "--version"@ || a == "-V"@ {
            SpecParseOutcome::Version
        } else if a == "--help"@ || a == "-h"@ {
            SpecParseOutcome::Help
        } else if a == "--debug"@ || a == "-d"@ {
            spec_parse_globals(args, i + 1, config, if debug == 255 { 255u8 } else { (debug + 1) as u8 })
        } else if a == "--config"@ || a == "-c"@ {
            if config is Some {
                SpecParseOutcome::Invalid
            } else if i + 1 < args.len() {
                spec_parse_globals(args, i + 2, Some(args[i + 1]), debug)
            } else {
                SpecParseOutcome::Invalid
            }
        } else if spec_is_flag(a) {
            SpecParseOutcome::Invalid
        } else {
            spec_parse_command(args, i, config, debug)
        }
    }
}

/// Parses the subcommand at position `i` and its arguments.
pub open spec fn spec_parse_command(
    args: Seq<Seq<char>>,
    i: int,
    config: Option<Seq<char>>,
    debug: u8,
) -> SpecParseOutcome
    decreases args.len() - i,
{
    if i >= args.len() {
        SpecParseOutcome::Invalid
    } else {
        let a = args[i];
        if a == "init"@ {
            if i + 1 == args.len() {
                SpecParseOutcome::Parsed(SpecCli { config, debug, command: Some(SpecCommands::Init) })
            } else {
                SpecParseOutcome::Invalid
            }
        } else if a == "list"@ {
            if i + 1 == args.len() {
                SpecParseOutcome::Parsed(SpecCli { config, debug, command: Some(SpecCommands::List) })
            } else {
                SpecParseOutcome::Invalid
            }
        } else if a == "add"@ {
            spec_parse_add(args, i + 1, config, debug, None, None)
        } else if a == "done"@ {
            spec_parse_done(args, i + 1, config, debug, None)
        } else if a == "tag"@ {
            spec_parse_tag(args, i + 1, config, debug, None, None)
        } else {
            SpecParseOutcome::Invalid
        }
    }
}

/// Parses the arguments of `add`: a required `--name`/`-n` and a required
/// `--due`/`-d` whose value must be a valid `YYYY-MM-DDTHH:MM:SS` date.
/// Either given twice, a missing value, an unknown token or a malformed
/// date is a usage error.
pub open spec fn spec_parse_add(
    args: Seq<Seq<char>>,
    i: int,
    config: Option<Seq<char>>,
    debug: u8,
    name: Option<Seq<char>>,
    due: Option<DateTime>,
) -> SpecParseOutcome
    decreases args.len() - i,
{
    if i >= args.len() {
        match (name, due) {
            (Some(n), Some(d)) => SpecParseOutcome::Parsed(
                SpecCli { config, debug, command: Some(SpecCommands::Add { name: n, due: d }) },
            ),
            _ => SpecParseOutcome::Invalid,
        }
    } else {
        let a = args[i];
        if a == "--name"@ || a == "-n"@ {
            if name is Some || i + 1 >= args.len() {
                SpecParseOutcome::Invalid
            } else {
                spec_parse_add(args, i + 2, config, debug, Some(args[i + 1]), due)
            }
        } else if a == "--due"@ || a == "-d"@ {
            if due is Some || i + 1 >= args.len() {
                SpecParseOutcome::Invalid
            } else {
                match spec_parse_dt(args[i + 1], 'T') {
                    Some(d) => spec_parse_add(args, i + 2, config, debug, name, Some(d)),
                    None => SpecParseOutcome::Invalid,
                }
            }
        } else {
            SpecParseOutcome::Invalid
        }
    }
}

/// Parses the arguments of `done`: a required `--id`/`-i` whose value must
/// be a decimal integer that fits in `u32`.
pub open spec fn spec_parse_done(
    args: Seq<Seq<char>>,
    i: int,
    config: Option<Seq<char>>,
    debug: u8,
    id: Option<u32>,
) -> SpecParseOutcome
    decreases args.len() - i,
{
    if i >= args.len() {
        match id {
            Some(v) => SpecParseOutcome::Parsed(
                SpecCli { config, debug, command: Some(SpecCommands::Done { id: v }) },
            ),
            None => SpecParseOutcome::Invalid,
        }
    } else {
        let a = args[i];
        if a == "--id"@ || a == "-i"@ {
            if id is Some || i + 1 >= args.len() {
                SpecParseOutcome::Invalid
            } else {
                match spec_parse_u32(args[i + 1]) {
                    Some(v) => spec_parse_done(args, i + 2, config, debug, Some(v)),
                    None => SpecParseOutcome::Invalid,
                }
            }
        } else {
            SpecParseOutcome::Invalid
        }
    }
}

/// Parses the arguments of `tag`: a required `--id`/`-i` integer and a
/// required `--tag`/`-t` name.
pub open spec fn spec_parse_tag(
    args: Seq<Seq<char>>,
    i: int,
    config: Option<Seq<char>>,
    debug: u8,
    id: Option<u32>,
    tag: Option<Seq<char>>,
) -> SpecParseOutcome
    decreases args.len() - i,
{
    if i >= args.len() {
        match (id, tag) {
            (Some(v), Some(t)) => SpecParseOutcome::Parsed(
                SpecCli { config, debug, command: Some(SpecCommands::Tag { id: v, tag: t }) },
            ),
            _ => SpecParseOutcome::Invalid,
        }
    } else {
        let a = args[i];
        if a == "--id"@ || a == "-i"@ {
            if id is Some || i + 1 >= args.len() {
                SpecParseOutcome::Invalid
            } else {
                match spec_parse_u32(args[i + 1]) {
                    Some(v) => spec_parse_tag(args, i + 2, config, debug, Some(v), tag),
                    None => SpecParseOutcome::Invalid,
                }
            }
        } else if a == "--tag"@ || a == "-t"@ {
            if tag is Some || i + 1 >= args.len() {
                SpecParseOutcome::Invalid
            } else {
                spec_parse_tag(args, i + 2, config, debug, id, Some(args[i + 1]))
            }
        } else {
            SpecParseOutcome::Invalid
        }
    }
}

/// Whether an outcome carries an `add` command with a date that does not
/// name a real calendar moment. The parser never produces one: the date
/// grammar admits only valid dates.
pub open spec fn spec_outcome_due_valid(o: SpecParseOutcome) -> bool {
    match o {
        SpecParseOutcome::Parsed(c) => match c.command {
            Some(SpecCommands::Add { due, .. }) => due.valid(),
            _ => true,
        },
        _ => true,
    }
}

proof fn lemma_parse_add_due_valid(
    args: Seq<Seq<char>>,
    i: int,
    config: Option<Seq<char>>,
    debug: u8,
    name: Option<Seq<char>>,
    due: Option<DateTime>,
)
    requires
        due is Some ==> due->0.valid(),
    ensures
        spec_outcome_due_valid(spec_parse_add(args, i, config, debug, name, due)),
    decreases args.len() - i,
{
    if i < args.len() {
        let a = args[i];
        if a == "--name"@ || a == "-n"@ {
            if !(name is Some || i + 1 >= args.len()) {
                lemma_parse_add_due_valid(args, i + 2, config, debug, Some(args[i + 1]), due);
            }
        } else if a == "--due"@ || a == "-d"@ {
            if !(due is Some || i + 1 >= args.len()) {
                match spec_parse_dt(args[i + 1], 'T') {
                    Some(d) => {
                        assert(d.valid());
                        lemma_parse_add_due_valid(args, i + 2, config, debug, name, Some(d));
                    },
                    None => {},
                }
            }
        }
    }
}

proof fn lemma_parse_done_not_add(
    args: Seq<Seq<char>>,
    i: int,
    config: Option<Seq<char>>,
    debug: u8,
    id: Option<u32>,
)
    ensures
        spec_outcome_due_valid(spec_parse_done(args, i, config, debug, id)),
    decreases args.len() - i,
{
    if i < args.len() {
        let a = args[i];
        if a == "--id"@ || a == "-i"@ {
            if !(id is Some || i + 1 >= args.len()) {
                match spec_parse_u32(args[i + 1]) {
                    Some(v) => {
                        lemma_parse_done_not_add(args, i + 2, config, debug, Some(v));
                    },
                    None => {},
                }
            }
        }
    }
}

proof fn lemma_parse_tag_not_add(
    args: Seq<Seq<char>>,
    i: int,
    config: Option<Seq<char>>,
    debug: u8,
    id: Option<u32>,
    tag: Option<Seq<char>>,
)
    ensures
        spec_outcome_due_valid(spec_parse_tag(args, i, config, debug, id, tag)),
    decreases args.len() - i,
{
    if i < args.len() {
        let a = args[i];
        if a == "--id"@ || a == "-i"@ {
            if !(id is Some || i + 1 >= args.len()) {
                match spec_parse_u32(args[i + 1]) {
                    Some(v) => {
                        lemma_parse_tag_not_add(args, i + 2, config, debug, Some(v), tag);
                    },
                    None => {},
                }
            }
        } else if a == "--tag"@ || a == "-t"@ {
            if !(tag is Some || i + 1 >= args.len()) {
                lemma_parse_tag_not_add(args, i + 2, config, debug, id, Some(args[i + 1]));
            }
        }
    }
}

proof fn lemma_parse_command_due_valid(
    args: Seq<Seq<char>>,
    i: int,
    config: Option<Seq<char>>,
    debug: u8,
)
    ensures
        spec_outcome_due_valid(spec_parse_command(args, i, config, debug)),
{
    if i < args.len() {
        let a = args[i];
        if a == "add"@ {
            lemma_parse_add_due_valid(args, i + 1, config, debug, None, None);
        } else if a == "done"@ {
            lemma_parse_done_not_add(args, i + 1, config, debug, None);
        } else if a == "tag"@ {
            lemma_parse_tag_not_add(args, i + 1, config, debug, None, None);
        }
    }
}

proof fn lemma_parse_globals_due_valid(
    args: Seq<Seq<char>>,
    i: int,
    config: Option<Seq<char>>,
    debug: u8,
)
    ensures
        spec_outcome_due_valid(spec_parse_globals(args, i, config, debug)),
    decreases args.len() - i,
{
    if i < args.len() {
        let a = args[i];
        if a == "--version"@ || a == "-V"@ || a == "--help"@ || a == "-h"@ {
        } else if a == "--debug"@ || a == "-d"@ {
            lemma_parse_globals_due_valid(
                args,
                i + 1,
                config,
                if debug == 255 { 255u8 } else { (debug + 1) as u8 },
            );
        } else if a == "--config"@ || a == "-c"@ {
            if !(config is Some) && i + 1 < args.len() {
                lemma_parse_globals_due_valid(args, i + 2, Some(args[i + 1]), debug);
            }
        } else if spec_is_flag(a) {
        } else {
            lemma_parse_command_due_valid(args, i, config, debug);
        }
    }
}

/// The parser never returns an `add` command whose date fails to name a
/// real calendar moment: the date grammar admits only valid dates.
pub proof fn lemma_parse_args_due_valid(args: Seq<Seq<char>>)
    ensures
        spec_outcome_due_valid(spec_parse_args(args)),
{
    lemma_parse_globals_due_valid(args, 1, None, 0);
}

fn is_flag(s: &String) -> (r: bool)
    ensures
        r == spec_is_flag(s@),
{
    s.as_str().unicode_len() >= 1 && s.as_str().get_char(0) == '-'
}

/// Parses the whole argument list, program name first.
pub fn parse_args(args: &Vec<String>) -> (r: ParseOutcome)
    ensures
        r@ == spec_parse_args(args.deep_view()),
{
    parse_globals(args, 1, None, 0)
}

fn parse_globals(args: &Vec<String>, i: usize, config: Option<String>, debug: u8) -> (r:
    ParseOutcome)
    requires
        i >= 1,
    ensures
        r@ == spec_parse_globals(args.deep_view(), i as int, spec_opt_str(config), debug),
    decreases args@.len() - i,
{
    let ghost dv = args.deep_view();
    if i >= args.len() {
        ParseOutcome::Parsed(Cli { config, debug, command: None })
    } else {
        proof {
            assert(dv[i as int] == args@[i as int]@);
        }
        let a = &args[i];
        if string_eq(a, "--version") || string_eq(a, "-V") {
            ParseOutcome::Version
        } else if string_eq(a, "--help") || string_eq(a, "-h") {
            ParseOutcome::Help
        } else if string_eq(a, "--debug") || string_eq(a, "-d") {
            let d: u8 = if debug == 255 { 255 } else { debug + 1 };
            parse_globals(args, i + 1, config, d)
        } else if string_eq(a, "--config") || string_eq(a, "-c") {
            if config.is_some() {
                ParseOutcome::Invalid
            } else if i + 1 < args.len() {
                proof {
                    assert(dv[i + 1] == args@[i + 1]@);
                }
                let value = args[i + 1].clone();
                parse_globals(args, i + 2, Some(value), debug)
            } else {
                ParseOutcome::Invalid
            }
        } else if is_flag(a) {
            ParseOutcome::Invalid
        } else {
            parse_command(args, i, config, debug)
        }
    }
}

fn parse_command(args: &Vec<String>, i: usize, config: Option<String>, debug: u8) -> (r:
    ParseOutcome)
    requires
        i < args@.len(),
        args@.len() <= usize::MAX,
    ensures
        r@ == spec_parse_command(args.deep_view(), i as int, spec_opt_str(config), debug),
{
    let ghost dv = args.deep_view();
    proof {
        assert(dv[i as int] == args@[i as int]@);
    }
    let a = &args[i];
    if string_eq(a, "init") {
        if args.len() - i == 1 {
            ParseOutcome::Parsed(Cli { config, debug, command: Some(Commands::Init) })
        } else {
            ParseOutcome::Invalid
        }
    } else if string_eq(a, "list") {
        if args.len() - i == 1 {
            ParseOutcome::Parsed(Cli { config, debug, command: Some(Commands::List) })
        } else {
            ParseOutcome::Invalid
        }
    } else if string_eq(a, "add") {
        parse_add(args, i + 1, config, debug, None, None)
    } else if string_eq(a, "done") {
        parse_done(args, i + 1, config, debug, None)
    } else if string_eq(a, "tag") {
        parse_tag(args, i + 1, config, debug, None, None)
    } else {
        ParseOutcome::Invalid
    }
}

fn parse_add(
    args: &Vec<String>,
    i: usize,
    config: Option<String>,
    debug: u8,
    name: Option<String>,
    due: Option<DateTime>,
) -> (r: ParseOutcome)
    ensures
        r@ == spec_parse_add(
            args.deep_view(),
            i as int,
            spec_opt_str(config),
            debug,
            spec_opt_str(name),
            due,
        ),
    decreases args@.len() - i,
{
    let ghost dv = args.deep_view();
    if i >= args.len() {
        match (name, due) {
            (Some(n), Some(d)) => ParseOutcome::Parsed(
                Cli { config, debug, command: Some(Commands::Add { name: n, due: d }) },
            ),
            _ => ParseOutcome::Invalid,
        }
    } else {
        proof {
            assert(dv[i as int] == args@[i as int]@);
        }
        let a = &args[i];
        if string_eq(a, "--name") || string_eq(a, "-n") {
            if name.is_some() || i + 1 >= args.len() {
                ParseOutcome::Invalid
            } else {
                proof {
                    assert(dv[i + 1] == args@[i + 1]@);
                }
                let value = args[i + 1].clone();
                parse_add(args, i + 2, config, debug, Some(value), due)
            }
        } else if string_eq(a, "--due") || string_eq(a, "-d") {
            if due.is_some() || i + 1 >= args.len() {
                ParseOutcome::Invalid
            } else {
                proof {
                    assert(dv[i + 1] == args@[i + 1]@);
                }
                match parse_dt(args[i + 1].as_str(), 'T') {
                    Some(d) => parse_add(args, i + 2, config, debug, name, Some(d)),
                    None => ParseOutcome::Invalid,
                }
            }
        } else {
            ParseOutcome::Invalid
        }
    }
}

fn parse_done(args: &Vec<String>, i: usize, config: Option<String>, debug: u8, id: Option<u32>)
    -> (r: ParseOutcome)
    ensures
        r@ == spec_parse_done(args.deep_view(), i as int, spec_opt_str(config), debug, id),
    decreases args@.len() - i,
{
    let ghost dv = args.deep_view();
    if i >= args.len() {
        match id {
            Some(v) => ParseOutcome::Parsed(
                Cli { config, debug, command: Some(Commands::Done { id: v }) },
            ),
            None => ParseOutcome::Invalid,
        }
    } else {
        proof {
            assert(dv[i as int] == args@[i as int]@);
        }
        let a = &args[i];
        if string_eq(a, "--id") || string_eq(a, "-i") {
            if id.is_some() || i + 1 >= args.len() {
                ParseOutcome::Invalid
            } else {
                proof {
                    assert(dv[i + 1] == args@[i + 1]@);
                }
                match parse_u32(args[i + 1].as_str()) {
                    Some(v) => parse_done(args, i + 2, config, debug, Some(v)),
                    None => ParseOutcome::Invalid,
                }
            }
        } else {
            ParseOutcome::Invalid
        }
    }
}

fn parse_tag(
    args: &Vec<String>,
    i: usize,
    config: Option<String>,
    debug: u8,
    id: Option<u32>,
    tag: Option<String>,
) -> (r: ParseOutcome)
    ensures
        r@ == spec_parse_tag(
            args.deep_view(),
            i as int,
            spec_opt_str(config),
            debug,
            id,
            spec_opt_str(tag),
        ),
    decreases args@.len() - i,
{
    let ghost dv = args.deep_view();
    if i >= args.len() {
        match (id, tag) {
            (Some(v), Some(t)) => ParseOutcome::Parsed(
                Cli { config, debug, command: Some(Commands::Tag { id: v, tag: t }) },
            ),
            _ => ParseOutcome::Invalid,
        }
    } else {
        proof {
            assert(dv[i as int] == args@[i as int]@);
        }
        let a = &args[i];
        if string_eq(a, "--id") || string_eq(a, "-i") {
            if id.is_some() || i + 1 >= args.len() {
                ParseOutcome::Invalid
            } else {
                proof {
                    assert(dv[i + 1] == args@[i + 1]@);
                }
                match parse_u32(args[i + 1].as_str()) {
                    Some(v) => parse_tag(args, i + 2, config, debug, Some(v), tag),
                    None => ParseOutcome::Invalid,
                }
            }
        } else if string_eq(a, "--tag") || string_eq(a, "-t") {
            if tag.is_some() || i + 1 >= args.len() {
                ParseOutcome::Invalid
            } else {
                proof {
                    assert(dv[i + 1] == args@[i + 1]@);
                }
                let value = args[i + 1].clone();
                parse_tag(args, i + 2, config, debug, id, Some(value))
            }
        } else {
            ParseOutcome::Invalid
        }
    }
}

} // verus!
