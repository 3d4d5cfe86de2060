//! The command line: what each subcommand accepts and the command it yields.
//! A directory given as `None` stands for the process's current directory.
use vstd::prelude::*;
use crate::text::{
    lacks, trim, has_prefix, find_char, join, strs, views, chars_of, string_of, push_all, push_str,
    text_is, trim_chars, find_char_from, slice_of, skip, starts_with_str, join_with,
};
use crate::flags::{
    Flags, FlagsModel, scanned, option_problem, one_value, many_values, is_present, names,
    well_scanned, is_switch,
};
use crate::numbers::{all_digits, digits_value, parsed_u32, parse_u32, decimal, decimal_chars,
    is_digit};
use crate::ids::{uuid_text, uuid_parses};

verus! {

/// A parsed command line.
#[derive(Debug, PartialEq)]
pub enum Command {
    Help,
    Version,
    Init { repo: Option<String> },
    Review(ReviewArgs),
    ProjectsList,
    ProjectsUnregister { target: Option<String> },
    GitInclude { repo: Option<String>, yes: bool },
    GitExclude { repo: Option<String> },
    Record(RecordArgs),
    Journal(JournalArgs),
    Plan { repo: Option<String> },
    Remember { repo: Option<String>, text: String },
    Later { repo: Option<String> },
    Resume { repo: Option<String> },
    Search { repo: Option<String>, query: String },
    Show { repo: Option<String>, id: String },
    Lift { repo: Option<String>, id: String, from: String },
    Changes { repo: Option<String> },
    SkillInstall { path: Option<String>, force: bool },
    SkillStatus,
}

/// `journal` bullets.
#[derive(Debug, PartialEq)]
pub struct JournalArgs {
    pub repo: Option<String>,
    pub done: Vec<String>,
    pub planned: Vec<String>,
    pub questions: Vec<String>,
    pub next: Vec<String>,
}

/// `review` options.
#[derive(Debug, PartialEq)]
pub struct ReviewArgs {
    pub repo: Option<String>,
    pub scope: ReviewScope,
    pub all_projects: bool,
    pub output: Option<String>,
    pub force: bool,
}

/// The calendar period a review covers.
#[derive(Debug, Clone, Copy, PartialEq, Eq, Structural)]
pub enum ReviewScope {
    Overview,
    AllTime,
    Year(i32),
    Month(i32, u32),
    Quarter(i32, u32),
    Half(i32, u32),
}

/// `decide` and `learn` arguments.
#[derive(Debug, PartialEq)]
pub struct RecordArgs {
    pub kind: String,
    pub repo: Option<String>,
    pub statement: String,
    pub files: Vec<String>,
    pub topics: Vec<String>,
    pub evidence: Vec<String>,
    pub related: Vec<String>,
    pub supersedes: Vec<String>,
}

/// The text form of an optional string.
pub open spec fn ov(o: Option<String>) -> Option<Seq<char>> {
    match o {
        Some(s) => Some(s@),
        None => None,
    }
}

/// A command as text values.
pub enum CommandModel {
    Help,
    Version,
    Init { repo: Option<Seq<char>> },
    Review {
        repo: Option<Seq<char>>,
        scope: ReviewScope,
        all_projects: bool,
        output: Option<Seq<char>>,
        force: bool,
    },
    ProjectsList,
    ProjectsUnregister { target: Option<Seq<char>> },
    GitInclude { repo: Option<Seq<char>>, yes: bool },
    GitExclude { repo: Option<Seq<char>> },
    Record {
        kind: Seq<char>,
        repo: Option<Seq<char>>,
        statement: Seq<char>,
        files: Seq<Seq<char>>,
        topics: Seq<Seq<char>>,
        evidence: Seq<Seq<char>>,
        related: Seq<Seq<char>>,
        supersedes: Seq<Seq<char>>,
    },
    Journal {
        repo: Option<Seq<char>>,
        done: Seq<Seq<char>>,
        planned: Seq<Seq<char>>,
        questions: Seq<Seq<char>>,
        next: Seq<Seq<char>>,
    },
    Plan { repo: Option<Seq<char>> },
    Remember { repo: Option<Seq<char>>, text: Seq<char> },
    Later { repo: Option<Seq<char>> },
    Resume { repo: Option<Seq<char>> },
    Search { repo: Option<Seq<char>>, query: Seq<char> },
    Show { repo: Option<Seq<char>>, id: Seq<char> },
    Lift { repo: Option<Seq<char>>, id: Seq<char>, from: Seq<char> },
    Changes { repo: Option<Seq<char>> },
    SkillInstall { path: Option<Seq<char>>, force: bool },
    SkillStatus,
}

impl View for Command {
    type V = CommandModel;

    open spec fn view(&self) -> CommandModel {
        match self {
            Command::Help => CommandModel::Help,
            Command::Version => CommandModel::Version,
            Command::Init { repo } => CommandModel::Init { repo: ov(*repo) },
            Command::Review(a) => CommandModel::Review {
                repo: ov(a.repo),
                scope: a.scope,
                all_projects: a.all_projects,
                output: ov(a.output),
                force: a.force,
            },
            Command::ProjectsList => CommandModel::ProjectsList,
            Command::ProjectsUnregister { target } => CommandModel::ProjectsUnregister {
                target: ov(*target),
            },
            Command::GitInclude { repo, yes } => CommandModel::GitInclude { repo: ov(*repo), yes: *yes },
            Command::GitExclude { repo } => CommandModel::GitExclude { repo: ov(*repo) },
            Command::Record(a) => CommandModel::Record {
                kind: a.kind@,
                repo: ov(a.repo),
                statement: a.statement@,
                files: strs(a.files@),
                topics: strs(a.topics@),
                evidence: strs(a.evidence@),
                related: strs(a.related@),
                supersedes: strs(a.supersedes@),
            },
            Command::Journal(a) => CommandModel::Journal {
                repo: ov(a.repo),
                done: strs(a.done@),
                planned: strs(a.planned@),
                questions: strs(a.questions@),
                next: strs(a.next@),
            },
            Command::Plan { repo } => CommandModel::Plan { repo: ov(*repo) },
            Command::Remember { repo, text } => CommandModel::Remember { repo: ov(*repo), text: text@ },
            Command::Later { repo } => CommandModel::Later { repo: ov(*repo) },
            Command::Resume { repo } => CommandModel::Resume { repo: ov(*repo) },
            Command::Search { repo, query } => CommandModel::Search { repo: ov(*repo), query: query@ },
            Command::Show { repo, id } => CommandModel::Show { repo: ov(*repo), id: id@ },
            Command::Lift { repo, id, from } => CommandModel::Lift {
                repo: ov(*repo),
                id: id@,
                from: from@,
            },
            Command::Changes { repo } => CommandModel::Changes { repo: ov(*repo) },
            Command::SkillInstall { path, force } => CommandModel::SkillInstall {
                path: ov(*path),
                force: *force,
            },
            Command::SkillStatus => CommandModel::SkillStatus,
        }
    }
}

/// Scanning, then refusing options outside `allowed` and repeats among `once`.
pub open spec fn checked(args: Seq<Seq<char>>, allowed: Seq<Seq<char>>, once: Seq<Seq<char>>) -> Result<FlagsModel, Seq<char>> {
    match scanned(args) {
        Err(e) => Err(e),
        Ok(m) => match option_problem(m, allowed, once) {
            Some(e) => Err(e),
            None => Ok(m),
        },
    }
}

/// The `-d`/`--directory` value.
pub open spec fn dir(m: FlagsModel) -> Option<Seq<char>> {
    one_value(m, "directory"@)
}

/// The options of commands that take only `-d`.
pub open spec fn only_directory(args: Seq<Seq<char>>) -> Result<FlagsModel, Seq<char>> {
    checked(args, seq!["directory"@], seq!["directory"@])
}

/// Commands that take only `-d` and no positional argument.
pub open spec fn directory_command(args: Seq<Seq<char>>, name: Seq<char>) -> Result<Option<Seq<char>>, Seq<char>> {
    match only_directory(args) {
        Err(e) => Err(e),
        Ok(m) => if m.positionals.len() != 0 {
            Err(name + " does not accept positional arguments"@)
        } else {
            Ok(dir(m))
        },
    }
}

/// `init [PATH]`.
pub open spec fn init_parsed(args: Seq<Seq<char>>) -> Result<CommandModel, Seq<char>> {
    if args.len() == 0 {
        Ok(CommandModel::Init { repo: None })
    } else if args.len() == 1 {
        Ok(CommandModel::Init { repo: Some(args[0]) })
    } else {
        Err("expected zero or one repository path"@)
    }
}

/// `projects` and `projects unregister TARGET`.
pub open spec fn projects_parsed(args: Seq<Seq<char>>) -> Result<CommandModel, Seq<char>> {
    if args.len() == 0 {
        Ok(CommandModel::ProjectsList)
    } else if args.len() == 2 && args[0] == "unregister"@ {
        Ok(CommandModel::ProjectsUnregister { target: Some(args[1]) })
    } else if args.len() == 1 && args[0] == "unregister"@ {
        Err("projects unregister requires PATH or WORKSPACE_ID"@)
    } else {
        Err("projects accepts no arguments or `unregister PATH|WORKSPACE_ID`"@)
    }
}

/// `git include [-d PATH] [--yes]` and `git exclude [-d PATH]`.
pub open spec fn git_parsed(args: Seq<Seq<char>>) -> Result<CommandModel, Seq<char>> {
    if args.len() == 0 {
        Err("git requires an action; use `tincan git include` or `tincan git exclude`"@)
    } else if args[0] != "include"@ && args[0] != "exclude"@ {
        Err(
            "unknown git action: "@ + args[0]
                + "; use `tincan git include` or `tincan git exclude`"@,
        )
    } else {
        let adding = args[0] == "include"@;
        let allowed = if adding {
            seq!["directory"@, "yes"@]
        } else {
            seq!["directory"@]
        };
        match checked(args.drop_first(), allowed, allowed) {
            Err(e) => Err(e),
            Ok(m) => if m.positionals.len() != 0 {
                Err("git "@ + args[0] + " does not accept positional arguments"@)
            } else if adding {
                Ok(CommandModel::GitInclude { repo: dir(m), yes: is_present(m, "yes"@) })
            } else {
                Ok(CommandModel::GitExclude { repo: dir(m) })
            },
        }
    }
}

/// The ids given to `--related` and `--supersedes` that are not UUIDs: the
/// first such option and value, `related` before `supersedes`.
pub open spec fn first_bad_id(m: FlagsModel) -> Option<(Seq<char>, Seq<char>)> {
    let related = many_values(m.values, "related"@);
    let supersedes = many_values(m.values, "supersedes"@);
    if exists|i: int| 0 <= i < related.len() && !uuid_text(#[trigger] related[i]) {
        Some(("related"@, related[first_non_uuid(related)]))
    } else if exists|i: int| 0 <= i < supersedes.len() && !uuid_text(#[trigger] supersedes[i]) {
        Some(("supersedes"@, supersedes[first_non_uuid(supersedes)]))
    } else {
        None
    }
}

/// Index of the first value that is not a UUID, or the length.
pub open spec fn first_non_uuid(values: Seq<Seq<char>>) -> int
    decreases values.len(),
{
    if values.len() == 0 {
        0
    } else if !uuid_text(values[0]) {
        0
    } else {
        1 + first_non_uuid(values.drop_first())
    }
}

/// `decide`/`learn STATEMENT [OPTIONS]`.
pub open spec fn record_parsed(kind: Seq<char>, args: Seq<Seq<char>>) -> Result<CommandModel, Seq<char>> {
    match checked(
        args,
        seq!["directory"@, "file"@, "topic"@, "evidence"@, "related"@, "supersedes"@],
        seq!["directory"@],
    ) {
        Err(e) => Err(e),
        Ok(m) => if m.positionals.len() != 1 {
            Err(
                (if kind == "decision"@ {
                    "decide"@
                } else {
                    "learn"@
                }) + " requires exactly one concise statement"@,
            )
        } else {
            let statement = trim(m.positionals[0]);
            if statement.len() == 0 || !lacks(statement, '\n') || !lacks(statement, '\r') {
                Err("record statement must be one non-empty line"@)
            } else if kind != "decision"@ && is_present(m, "supersedes"@) {
                Err("remove --supersedes: it is only valid for decisions"@)
            } else if first_bad_id(m) is Some {
                let (option, id) = first_bad_id(m)->0;
                Err("--"@ + option + " requires a valid UUID: "@ + id)
            } else {
                Ok(
                    CommandModel::Record {
                        kind,
                        repo: dir(m),
                        statement,
                        files: many_values(m.values, "file"@),
                        topics: many_values(m.values, "topic"@),
                        evidence: many_values(m.values, "evidence"@),
                        related: many_values(m.values, "related"@),
                        supersedes: many_values(m.values, "supersedes"@),
                    },
                )
            }
        },
    }
}

/// `journal [-d PATH] [--done|--planned|--question|--next TEXT]...`.
pub open spec fn journal_parsed(args: Seq<Seq<char>>) -> Result<CommandModel, Seq<char>> {
    match checked(
        args,
        seq!["directory"@, "done"@, "planned"@, "question"@, "next"@],
        seq!["directory"@],
    ) {
        Err(e) => Err(e),
        Ok(m) => if m.positionals.len() != 0 {
            Err("journal does not accept positional arguments"@)
        } else {
            let done = many_values(m.values, "done"@);
            let planned = many_values(m.values, "planned"@);
            let questions = many_values(m.values, "question"@);
            let next = many_values(m.values, "next"@);
            if done.len() == 0 && planned.len() == 0 && questions.len() == 0 && next.len() == 0 {
                Err("journal requires at least one journal bullet"@)
            } else {
                Ok(CommandModel::Journal { repo: dir(m), done, planned, questions, next })
            }
        },
    }
}

/// What `parse_year` reads: exactly four ASCII digits naming a year from 1.
pub open spec fn year_parsed(value: Seq<char>, option: Seq<char>) -> Result<int, Seq<char>> {
    if value.len() != 4 || !all_digits(value) {
        Err(option + " requires a four-digit year: "@ + value)
    } else if digits_value(value) < 1 {
        Err(option + " requires a year from 0001 to 9999: "@ + value)
    } else {
        Ok(digits_value(value) as int)
    }
}

/// The placeholder for a period's number in messages.
pub open spec fn period_format(period: Seq<char>) -> Seq<char> {
    if period == "month"@ {
        "MM"@
    } else if period == "quarter"@ {
        "QN"@
    } else {
        "HN"@
    }
}

/// The message for a period value of the wrong shape.
pub open spec fn period_shape_message(period: Seq<char>, value: Seq<char>) -> Seq<char> {
    "--"@ + period + " requires YYYY-"@ + period_format(period) + ": "@ + value
}

/// The number part of a period value: two characters for a month, the text
/// after `Q` for a quarter or after `H` for a half; otherwise nothing.
pub open spec fn period_number_text(period: Seq<char>, number: Seq<char>) -> Seq<char> {
    if period == "month"@ {
        if number.len() == 2 {
            number
        } else {
            seq![]
        }
    } else if period == "quarter"@ {
        if has_prefix(number, "Q"@) {
            number.skip(1)
        } else {
            seq![]
        }
    } else {
        if has_prefix(number, "H"@) {
            number.skip(1)
        } else {
            seq![]
        }
    }
}

/// What `parse_calendar_period` reads: `YYYY-MM`, `YYYY-QN` or `YYYY-HN`,
/// with the number from 1 to `maximum`.
pub open spec fn period_parsed(value: Seq<char>, period: Seq<char>, maximum: nat) -> Result<(int, nat), Seq<char>> {
    let d = find_char(value, '-');
    if d >= value.len() {
        Err(period_shape_message(period, value))
    } else {
        match year_parsed(value.take(d), "--"@ + period) {
            Err(e) => Err(e),
            Ok(year) => match parsed_u32(period_number_text(period, value.skip(d + 1))) {
                None => Err(period_shape_message(period, value)),
                Some(n) => if 1 <= n <= maximum {
                    Ok((year, n))
                } else {
                    Err(
                        "--"@ + period + " requires a value from 1 to "@ + decimal(maximum) + ": "@
                            + value,
                    )
                },
            },
        }
    }
}

/// The review options.
pub open spec fn review_options() -> Seq<Seq<char>> {
    seq![
        "directory"@,
        "year"@,
        "month"@,
        "quarter"@,
        "half"@,
        "all-time"@,
        "all-projects"@,
        "output"@,
        "force"@,
    ]
}

/// The time options given to `review`, in the order year, month, quarter,
/// half, all-time.
pub open spec fn time_options(m: FlagsModel) -> Seq<Seq<char>> {
    let t0 = if is_present(m, "year"@) {
        seq!["year"@]
    } else {
        seq![]
    };
    let t1 = if is_present(m, "month"@) {
        t0.push("month"@)
    } else {
        t0
    };
    let t2 = if is_present(m, "quarter"@) {
        t1.push("quarter"@)
    } else {
        t1
    };
    let t3 = if is_present(m, "half"@) {
        t2.push("half"@)
    } else {
        t2
    };
    if is_present(m, "all-time"@) {
        t3.push("all-time"@)
    } else {
        t3
    }
}

/// Option names written as `--name`.
pub open spec fn dashed(names: Seq<Seq<char>>) -> Seq<Seq<char>> {
    names.map_values(|n: Seq<char>| "--"@ + n)
}

/// The scope selected by the single time option given, if any.
pub open spec fn scope_parsed(m: FlagsModel, times: Seq<Seq<char>>) -> Result<ReviewScope, Seq<char>> {
    if times.len() == 0 {
        Ok(ReviewScope::Overview)
    } else if times[0] == "all-time"@ {
        Ok(ReviewScope::AllTime)
    } else if times[0] == "year"@ {
        match year_parsed(one_value(m, "year"@)->0, "--year"@) {
            Ok(y) => Ok(ReviewScope::Year(y as i32)),
            Err(e) => Err(e),
        }
    } else {
        let maximum: nat = if times[0] == "month"@ {
            12
        } else if times[0] == "quarter"@ {
            4
        } else {
            2
        };
        match period_parsed(one_value(m, times[0])->0, times[0], maximum) {
            Ok((y, n)) => Ok(
                if times[0] == "month"@ {
                    ReviewScope::Month(y as i32, n as u32)
                } else if times[0] == "quarter"@ {
                    ReviewScope::Quarter(y as i32, n as u32)
                } else {
                    ReviewScope::Half(y as i32, n as u32)
                },
            ),
            Err(e) => Err(e),
        }
    }
}

/// `review [OPTIONS]`.
pub open spec fn review_parsed(args: Seq<Seq<char>>) -> Result<CommandModel, Seq<char>> {
    match checked(args, review_options(), review_options()) {
        Err(e) => Err(e),
        Ok(m) => if m.positionals.len() != 0 {
            Err(
                "review does not accept positional scopes; use --year, --month, --quarter, --half, or --all-time"@,
            )
        } else if is_present(m, "force"@) && !is_present(m, "output"@) {
            Err("--force requires --output <FILE>"@)
        } else if time_options(m).len() > 1 {
            Err(
                "review time options are mutually exclusive: "@ + join(
                    dashed(time_options(m)),
                    ", "@,
                ),
            )
        } else {
            match scope_parsed(m, time_options(m)) {
                Err(e) => Err(e),
                Ok(scope) => Ok(
                    CommandModel::Review {
                        repo: dir(m),
                        scope,
                        all_projects: is_present(m, "all-projects"@),
                        output: one_value(m, "output"@),
                        force: is_present(m, "force"@),
                    },
                ),
            }
        },
    }
}

/// `lift UUID --from FILE [-d PATH]`.
pub open spec fn lift_parsed(args: Seq<Seq<char>>) -> Result<CommandModel, Seq<char>> {
    match checked(args, seq!["directory"@, "from"@], seq!["directory"@, "from"@]) {
        Err(e) => Err(e),
        Ok(m) => if m.positionals.len() != 1 {
            Err("lift requires exactly one project learning ID"@)
        } else if !uuid_text(m.positionals[0]) {
            Err("lift requires a valid UUID: "@ + m.positionals[0])
        } else {
            match one_value(m, "from"@) {
                None => Err("lift requires --from <MARKDOWN_FILE>; use --from - for stdin"@),
                Some(from) => Ok(CommandModel::Lift { repo: dir(m), id: m.positionals[0], from }),
            }
        },
    }
}

/// `skill install [--path DIR] [--force]` and `skill status`.
pub open spec fn skill_parsed(args: Seq<Seq<char>>) -> Result<CommandModel, Seq<char>> {
    if args.len() > 0 && args[0] == "install"@ {
        match checked(args.drop_first(), seq!["path"@, "force"@], seq!["path"@, "force"@]) {
            Err(e) => Err(e),
            Ok(m) => if m.positionals.len() != 0 {
                Err("skill install does not accept positional arguments"@)
            } else {
                Ok(CommandModel::SkillInstall {
                    path: one_value(m, "path"@),
                    force: is_present(m, "force"@),
                })
            },
        }
    } else if args.len() == 1 && args[0] == "status"@ {
        Ok(CommandModel::SkillStatus)
    } else if args.len() > 0 && args[0] == "status"@ {
        Err("skill status does not accept arguments"@)
    } else {
        Err("skill requires `install` or `status`"@)
    }
}

/// A command that takes `-d` and exactly one positional argument.
pub open spec fn one_positional(args: Seq<Seq<char>>, too_many: Seq<char>, missing: Seq<char>) -> Result<(Option<Seq<char>>, Seq<char>), Seq<char>> {
    match only_directory(args) {
        Err(e) => Err(e),
        Ok(m) => if m.positionals.len() > 1 {
            Err(too_many)
        } else if m.positionals.len() == 0 {
            Err(missing)
        } else {
            Ok((dir(m), m.positionals[0]))
        },
    }
}

/// The full help text.
pub open spec fn help_text() -> Seq<char> {
    HELP@
}

/// The command that `args` (without the program name) spell, or the message
/// that refuses them.
pub open spec fn parsed(args: Seq<Seq<char>>) -> Result<CommandModel, Seq<char>> {
    if args.len() == 0 {
        Ok(CommandModel::Help)
    } else {
        let c = args[0];
        let rest = args.drop_first();
        if c == "-h"@ || c == "--help"@ || c == "help"@ {
            Ok(CommandModel::Help)
        } else if c == "-V"@ || c == "--version"@ || c == "version"@ {
            Ok(CommandModel::Version)
        } else if c == "init"@ {
            init_parsed(rest)
        } else if c == "summary"@ {
            Err("summary was replaced by review; run `tincan review` to inspect recorded history"@)
        } else if c == "review"@ {
            review_parsed(rest)
        } else if c == "projects"@ {
            projects_parsed(rest)
        } else if c == "git"@ {
            git_parsed(rest)
        } else if c == "decide"@ {
            record_parsed("decision"@, rest)
        } else if c == "learn"@ {
            record_parsed("learning"@, rest)
        } else if c == "journal"@ {
            journal_parsed(rest)
        } else if c == "remember"@ {
            match only_directory(rest) {
                Err(e) => Err(e),
                Ok(m) => if m.positionals.len() != 1 {
                    Err("remember requires exactly one item"@)
                } else {
                    Ok(CommandModel::Remember { repo: dir(m), text: m.positionals[0] })
                },
            }
        } else if c == "later"@ {
            match directory_command(rest, "later"@) {
                Err(e) => Err(e),
                Ok(repo) => Ok(CommandModel::Later { repo }),
            }
        } else if c == "plan"@ {
            match directory_command(rest, "plan"@) {
                Err(e) => Err(e),
                Ok(repo) => Ok(CommandModel::Plan { repo }),
            }
        } else if c == "resume"@ {
            match directory_command(rest, "resume"@) {
                Err(e) => Err(e),
                Ok(repo) => Ok(CommandModel::Resume { repo }),
            }
        } else if c == "search"@ {
            match one_positional(rest, "search accepts exactly one query"@, "search requires a query"@) {
                Err(e) => Err(e),
                Ok((repo, query)) => Ok(CommandModel::Search { repo, query }),
            }
        } else if c == "show"@ {
            match one_positional(
                rest,
                "show accepts exactly one record ID"@,
                "show requires a record ID"@,
            ) {
                Err(e) => Err(e),
                Ok((repo, id)) => Ok(CommandModel::Show { repo, id }),
            }
        } else if c == "lift"@ {
            lift_parsed(rest)
        } else if c == "changes"@ {
            match directory_command(rest, "changes"@) {
                Err(e) => Err(e),
                Ok(repo) => Ok(CommandModel::Changes { repo }),
            }
        } else if c == "skill"@ {
            skill_parsed(rest)
        } else {
            Err("unknown command: "@ + c + "\n\n"@ + help_text())
        }
    }
}

/// `r` is what `s` describes: the same command, or the same message.
pub open spec fn agrees(r: Result<Command, String>, s: Result<CommandModel, Seq<char>>) -> bool {
    match s {
        Ok(m) => r is Ok && r->Ok_0@ == m,
        Err(e) => r is Err && r->Err_0@ == e,
    }
}

fn err(msg: &str) -> (r: String)
    ensures
        r@ == msg@,
{
    string_of(chars_of(msg).as_slice())
}

fn tail(args: &[String]) -> (r: &[String])
    requires
        args.len() > 0,
    ensures
        strs(r@) == strs(args@).drop_first(),
{
    let r = vstd::slice::slice_subrange(args, 1, args.len());
    assert(strs(r@) =~= strs(args@).drop_first());
    r
}

fn checked_flags(args: &[String], allowed: &[&str], once: &[&str]) -> (r: Result<Flags, String>)
    ensures
        match checked(strs(args@), names(allowed@), names(once@)) {
            Ok(m) => r is Ok && r->Ok_0@ == m,
            Err(e) => r is Err && r->Err_0@ == e,
        },
        r is Ok ==> well_scanned(r->Ok_0@),
{
    let values = Flags::parse(args)?;
    values.check(allowed, once)?;
    Ok(values)
}

fn directory_flags(args: &[String]) -> (r: Result<Flags, String>)
    ensures
        match only_directory(strs(args@)) {
            Ok(m) => r is Ok && r->Ok_0@ == m,
            Err(e) => r is Err && r->Err_0@ == e,
        },
{
    let allowed: [&str; 1] = ["directory"];
    assert(names(allowed@) =~= seq!["directory"@]);
    checked_flags(args, &allowed, &allowed)
}

fn directory_only_command(args: &[String], name: &str) -> (r: Result<Option<String>, String>)
    ensures
        match directory_command(strs(args@), name@) {
            Ok(d) => r is Ok && ov(r->Ok_0) == d,
            Err(e) => r is Err && r->Err_0@ == e,
        },
{
    let values = directory_flags(args)?;
    if values.positionals.len() != 0 {
        let mut e = chars_of(name);
        push_str(&mut e, " does not accept positional arguments");
        return Err(string_of(e.as_slice()));
    }
    Ok(values.one("directory"))
}

fn init_command(args: &[String]) -> (r: Result<Command, String>)
    ensures
        agrees(r, init_parsed(strs(args@))),
{
    if args.len() == 0 {
        Ok(Command::Init { repo: None })
    } else if args.len() == 1 {
        Ok(Command::Init { repo: Some(args[0].clone()) })
    } else {
        Err(err("expected zero or one repository path"))
    }
}

fn arg_is(args: &[String], i: usize, word: &str) -> (r: bool)
    requires
        i < args.len(),
    ensures
        r == (strs(args@)[i as int] == word@),
{
    let v = chars_of(args[i].as_str());
    text_is(v.as_slice(), word)
}

fn parse_projects(args: &[String]) -> (r: Result<Command, String>)
    ensures
        agrees(r, projects_parsed(strs(args@))),
{
    if args.len() == 0 {
        Ok(Command::ProjectsList)
    } else if args.len() == 2 && arg_is(args, 0, "unregister") {
        Ok(Command::ProjectsUnregister { target: Some(args[1].clone()) })
    } else if args.len() == 1 && arg_is(args, 0, "unregister") {
        Err(err("projects unregister requires PATH or WORKSPACE_ID"))
    } else {
        Err(err("projects accepts no arguments or `unregister PATH|WORKSPACE_ID`"))
    }
}

fn parse_git(args: &[String]) -> (r: Result<Command, String>)
    ensures
        agrees(r, git_parsed(strs(args@))),
{
    if args.len() == 0 {
        return Err(err("git requires an action; use `tincan git include` or `tincan git exclude`"));
    }
    let adding = arg_is(args, 0, "include");
    if !adding && !arg_is(args, 0, "exclude") {
        let mut e = chars_of("unknown git action: ");
        push_str(&mut e, args[0].as_str());
        push_str(&mut e, "; use `tincan git include` or `tincan git exclude`");
        return Err(string_of(e.as_slice()));
    }
    let rest = tail(args);
    let values = if adding {
        let allowed: [&str; 2] = ["directory", "yes"];
        assert(names(allowed@) =~= seq!["directory"@, "yes"@]);
        checked_flags(rest, &allowed, &allowed)?
    } else {
        let allowed: [&str; 1] = ["directory"];
        assert(names(allowed@) =~= seq!["directory"@]);
        checked_flags(rest, &allowed, &allowed)?
    };
    if values.positionals.len() != 0 {
        let mut e = chars_of("git ");
        push_str(&mut e, args[0].as_str());
        push_str(&mut e, " does not accept positional arguments");
        return Err(string_of(e.as_slice()));
    }
    if adding {
        Ok(Command::GitInclude { repo: values.one("directory"), yes: values.present("yes") })
    } else {
        Ok(Command::GitExclude { repo: values.one("directory") })
    }
}

fn first_invalid_uuid(values: &Vec<String>) -> (r: Option<usize>)
    ensures
        match r {
            Some(i) => i < values.len() && i == first_non_uuid(strs(values@)) && exists|k: int|
                0 <= k < values.len() && !uuid_text(#[trigger] strs(values@)[k]),
            None => forall|k: int| 0 <= k < values.len() ==> uuid_text(#[trigger] strs(values@)[k]),
        },
{
    let mut i: usize = 0;
    assert(strs(values@).skip(0) =~= strs(values@));
    while i < values.len()
        invariant
            i <= values.len(),
            forall|k: int| 0 <= k < i ==> uuid_text(#[trigger] strs(values@)[k]),
            first_non_uuid(strs(values@)) == i + first_non_uuid(strs(values@).skip(i as int)),
        decreases values.len() - i,
    {
        assert(strs(values@).skip(i as int)[0] == values@[i as int]@);
        if !uuid_parses(values[i].as_str()) {
            assert(!uuid_text(strs(values@)[i as int]));
            return Some(i);
        }
        assert(strs(values@).skip(i as int).drop_first() =~= strs(values@).skip(i + 1));
        i = i + 1;
    }
    None
}

fn parse_record(kind: &str, args: &[String]) -> (r: Result<Command, String>)
    requires
        kind@ == "decision"@ || kind@ == "learning"@,
    ensures
        agrees(r, record_parsed(kind@, strs(args@))),
{
    let allowed: [&str; 6] = ["directory", "file", "topic", "evidence", "related", "supersedes"];
    let once: [&str; 1] = ["directory"];
    assert(names(allowed@) =~= seq!["directory"@, "file"@, "topic"@, "evidence"@, "related"@, "supersedes"@]);
    assert(names(once@) =~= seq!["directory"@]);
    let values = checked_flags(args, &allowed, &once)?;
    let kv = chars_of(kind);
    let is_decision = text_is(kv.as_slice(), "decision");
    if values.positionals.len() != 1 {
        let mut e = if is_decision {
            chars_of("decide")
        } else {
            chars_of("learn")
        };
        push_str(&mut e, " requires exactly one concise statement");
        return Err(string_of(e.as_slice()));
    }
    let statement = trim_chars(values.positionals[0].as_slice());
    let has_newline = find_char_from(statement.as_slice(), 0, '\n') < statement.len();
    let has_return = find_char_from(statement.as_slice(), 0, '\r') < statement.len();
    proof {
        assert(statement@.skip(0) =~= statement@);
        assert(views(values.positionals@)[0] == values.positionals@[0]@);
        if !has_newline {
            assert(lacks(statement@, '\n'));
        } else {
            let j = find_char(statement@, '\n');
            crate::text::lemma_find_char(statement@, '\n');
        }
        if !has_return {
            assert(lacks(statement@, '\r'));
        } else {
            crate::text::lemma_find_char(statement@, '\r');
        }
    }
    if statement.len() == 0 || has_newline || has_return {
        return Err(err("record statement must be one non-empty line"));
    }
    if !is_decision && values.present("supersedes") {
        return Err(err("remove --supersedes: it is only valid for decisions"));
    }
    let related = values.many("related");
    let supersedes = values.many("supersedes");
    match first_invalid_uuid(&related) {
        Some(i) => {
            let mut e = chars_of("--related requires a valid UUID: ");
            push_str(&mut e, related[i].as_str());
            proof {
                reveal_strlit("--related requires a valid UUID: ");
                reveal_strlit("--");
                reveal_strlit("related");
                reveal_strlit(" requires a valid UUID: ");
                assert("--related requires a valid UUID: "@ =~= "--"@ + "related"@ + " requires a valid UUID: "@);
            }
            return Err(string_of(e.as_slice()));
        },
        None => {},
    }
    match first_invalid_uuid(&supersedes) {
        Some(i) => {
            let mut e = chars_of("--supersedes requires a valid UUID: ");
            push_str(&mut e, supersedes[i].as_str());
            proof {
                reveal_strlit("--supersedes requires a valid UUID: ");
                reveal_strlit("--");
                reveal_strlit("supersedes");
                reveal_strlit(" requires a valid UUID: ");
                assert("--supersedes requires a valid UUID: "@ =~= "--"@ + "supersedes"@ + " requires a valid UUID: "@);
            }
            return Err(string_of(e.as_slice()));
        },
        None => {},
    }
    Ok(Command::Record(RecordArgs {
        kind: string_of(kv.as_slice()),
        repo: values.one("directory"),
        statement: string_of(statement.as_slice()),
        files: values.many("file"),
        topics: values.many("topic"),
        evidence: values.many("evidence"),
        related,
        supersedes,
    }))
}

fn parse_journal(args: &[String]) -> (r: Result<Command, String>)
    ensures
        agrees(r, journal_parsed(strs(args@))),
{
    let allowed: [&str; 5] = ["directory", "done", "planned", "question", "next"];
    let once: [&str; 1] = ["directory"];
    assert(names(allowed@) =~= seq!["directory"@, "done"@, "planned"@, "question"@, "next"@]);
    assert(names(once@) =~= seq!["directory"@]);
    let values = checked_flags(args, &allowed, &once)?;
    if values.positionals.len() != 0 {
        return Err(err("journal does not accept positional arguments"));
    }
    let done = values.many("done");
    let planned = values.many("planned");
    let questions = values.many("question");
    let next = values.many("next");
    if done.len() == 0 && planned.len() == 0 && questions.len() == 0 && next.len() == 0 {
        return Err(err("journal requires at least one journal bullet"));
    }
    Ok(Command::Journal(JournalArgs { repo: values.one("directory"), done, planned, questions, next }))
}

fn digit_of(c: char) -> (d: u32)
    requires
        is_digit(c),
    ensures
        d == crate::numbers::digit_value(c),
        d < 10,
{
    c as u32 - '0' as u32
}

proof fn lemma_digits_step(s: Seq<char>, k: int)
    requires
        0 <= k < s.len(),
    ensures
        digits_value(s.take(k + 1)) == digits_value(s.take(k)) * 10 + crate::numbers::digit_value(s[k]),
{
    assert(s.take(k + 1).drop_last() =~= s.take(k));
}

/// Reads a four-digit year from 0001 to 9999.
fn parse_year(value: &[char], option: &[char]) -> (r: Result<i32, String>)
    ensures
        match year_parsed(value@, option@) {
            Ok(y) => r == Ok::<i32, String>(y as i32),
            Err(e) => r is Err && r->Err_0@ == e,
        },
        r is Ok ==> 1 <= r->Ok_0 <= 9999,
        year_parsed(value@, option@) is Ok ==> 1 <= year_parsed(value@, option@)->Ok_0 <= 9999,
{
    let mut digits = value.len() == 4;
    let mut i: usize = 0;
    while digits && i < value.len()
        invariant
            i <= value.len(),
            digits ==> forall|k: int| 0 <= k < i ==> is_digit(#[trigger] value@[k]),
            !digits ==> value@.len() != 4,
        decreases value.len() - i,
    {
        if !('0' <= value[i] && value[i] <= '9') {
            proof {
                assert(!is_digit(value@[i as int]));
            }
            let mut e = crate::text::to_vec(option);
            push_str(&mut e, " requires a four-digit year: ");
            push_all(&mut e, value);
            return Err(string_of(e.as_slice()));
        }
        i = i + 1;
    }
    if !digits {
        let mut e = crate::text::to_vec(option);
        push_str(&mut e, " requires a four-digit year: ");
        push_all(&mut e, value);
        return Err(string_of(e.as_slice()));
    }
    let y = digit_of(value[0]) * 1000 + digit_of(value[1]) * 100 + digit_of(value[2]) * 10
        + digit_of(value[3]);
    proof {
        let s = value@;
        assert(s.take(0) =~= Seq::<char>::empty());
        lemma_digits_step(s, 0);
        lemma_digits_step(s, 1);
        lemma_digits_step(s, 2);
        lemma_digits_step(s, 3);
        assert(s.take(4) =~= s);
    }
    if y < 1 {
        let mut e = crate::text::to_vec(option);
        push_str(&mut e, " requires a year from 0001 to 9999: ");
        push_all(&mut e, value);
        return Err(string_of(e.as_slice()));
    }
    Ok(y as i32)
}

/// Reads `YYYY-MM`, `YYYY-QN` or `YYYY-HN`.
fn parse_calendar_period(value: &[char], period: &str, maximum: u32) -> (r: Result<(i32, u32), String>)
    requires
        (period@ == "month"@ && maximum == 12) || (period@ == "quarter"@ && maximum == 4) || (period@
            == "half"@ && maximum == 2),
    ensures
        match period_parsed(value@, period@, maximum as nat) {
            Ok((y, n)) => r is Ok && r->Ok_0.0 == y && r->Ok_0.1 == n,
            Err(e) => r is Err && r->Err_0@ == e,
        },
{
    let d = find_char_from(value, 0, '-');
    assert(value@.skip(0) =~= value@);
    let p = chars_of(period);
    let mut shape = chars_of("--");
    push_all(&mut shape, p.as_slice());
    push_str(&mut shape, " requires YYYY-");
    let is_month = text_is(p.as_slice(), "month");
    let is_quarter = text_is(p.as_slice(), "quarter");
    if is_month {
        push_str(&mut shape, "MM");
    } else if is_quarter {
        push_str(&mut shape, "QN");
    } else {
        push_str(&mut shape, "HN");
    }
    push_str(&mut shape, ": ");
    push_all(&mut shape, value);
    if d >= value.len() {
        return Err(string_of(shape.as_slice()));
    }
    let year_text = slice_of(value, 0, d);
    let mut option = chars_of("--");
    push_all(&mut option, p.as_slice());
    assert(year_text@ =~= value@.take(d as int));
    let year = parse_year(year_text.as_slice(), option.as_slice())?;
    let number = skip(value, d + 1);
    let digits: Vec<char> = if is_month {
        if number.len() == 2 {
            number
        } else {
            Vec::new()
        }
    } else if is_quarter {
        if starts_with_str(number.as_slice(), "Q") {
            proof { reveal_strlit("Q"); }
            skip(number.as_slice(), 1)
        } else {
            Vec::new()
        }
    } else {
        if starts_with_str(number.as_slice(), "H") {
            proof { reveal_strlit("H"); }
            skip(number.as_slice(), 1)
        } else {
            Vec::new()
        }
    };
    assert(digits@ == period_number_text(period@, number@));
    match parse_u32(digits.as_slice()) {
        None => Err(string_of(shape.as_slice())),
        Some(n) => {
            if 1 <= n && n <= maximum {
                Ok((year, n))
            } else {
                let mut e = chars_of("--");
                push_all(&mut e, p.as_slice());
                push_str(&mut e, " requires a value from 1 to ");
                push_all(&mut e, decimal_chars(maximum as u64).as_slice());
                push_str(&mut e, ": ");
                push_all(&mut e, value);
                Err(string_of(e.as_slice()))
            }
        },
    }
}

fn parse_review(args: &[String]) -> (r: Result<Command, String>)
    ensures
        agrees(r, review_parsed(strs(args@))),
{
    let allowed: [&str; 9] = [
        "directory",
        "year",
        "month",
        "quarter",
        "half",
        "all-time",
        "all-projects",
        "output",
        "force",
    ];
    assert(names(allowed@) =~= review_options());
    let values = checked_flags(args, &allowed, &allowed)?;
    if values.positionals.len() != 0 {
        return Err(
            err(
                "review does not accept positional scopes; use --year, --month, --quarter, --half, or --all-time",
            ),
        );
    }
    if values.present("force") && !values.present("output") {
        return Err(err("--force requires --output <FILE>"));
    }
    let mut times: Vec<Vec<char>> = Vec::new();
    let ghost m = values@;
    let ghost t0: Seq<Seq<char>> = if is_present(m, "year"@) { seq!["year"@] } else { seq![] };
    let ghost t1 = if is_present(m, "month"@) { t0.push("month"@) } else { t0 };
    let ghost t2 = if is_present(m, "quarter"@) { t1.push("quarter"@) } else { t1 };
    let ghost t3 = if is_present(m, "half"@) { t2.push("half"@) } else { t2 };
    if values.present("year") {
        times.push(chars_of("year"));
    }
    assert(views(times@) =~= t0);
    if values.present("month") {
        times.push(chars_of("month"));
    }
    assert(views(times@) =~= t1);
    if values.present("quarter") {
        times.push(chars_of("quarter"));
    }
    assert(views(times@) =~= t2);
    if values.present("half") {
        times.push(chars_of("half"));
    }
    assert(views(times@) =~= t3);
    if values.present("all-time") {
        times.push(chars_of("all-time"));
    }
    assert(views(times@) =~= time_options(m));
    let mut shown: Vec<Vec<char>> = Vec::new();
    let mut k: usize = 0;
    while k < times.len()
        invariant
            k <= times.len(),
            views(shown@) == dashed(views(times@).take(k as int)),
        decreases times.len() - k,
    {
        let mut d = chars_of("--");
        push_all(&mut d, times[k].as_slice());
        let ghost prev = views(shown@);
        shown.push(d);
        assert(views(shown@) =~= prev.push(d@));
        assert(dashed(views(times@).take(k + 1)) =~= dashed(views(times@).take(k as int)).push("--"@ + times@[k as int]@));
        k = k + 1;
    }
    assert(views(times@).take(times.len() as int) =~= views(times@));
    if times.len() > 1 {
        let mut e = chars_of("review time options are mutually exclusive: ");
        let sep = chars_of(", ");
        push_all(&mut e, join_with(&shown, sep.as_slice()).as_slice());
        return Err(string_of(e.as_slice()));
    }
    proof {
        lemma_time_names_take_values();
        lemma_present_has_value(m, "year"@);
        lemma_present_has_value(m, "month"@);
        lemma_present_has_value(m, "quarter"@);
        lemma_present_has_value(m, "half"@);
    }
    let scope = if times.len() == 0 {
        ReviewScope::Overview
    } else if text_is(times[0].as_slice(), "all-time") {
        ReviewScope::AllTime
    } else if text_is(times[0].as_slice(), "year") {
        let text = chars_of(values.one("year").unwrap().as_str());
        ReviewScope::Year(parse_year(text.as_slice(), chars_of("--year").as_slice())?)
    } else if text_is(times[0].as_slice(), "month") {
        let text = chars_of(values.one("month").unwrap().as_str());
        let (y, n) = parse_calendar_period(text.as_slice(), "month", 12)?;
        ReviewScope::Month(y, n)
    } else if text_is(times[0].as_slice(), "quarter") {
        let text = chars_of(values.one("quarter").unwrap().as_str());
        let (y, n) = parse_calendar_period(text.as_slice(), "quarter", 4)?;
        ReviewScope::Quarter(y, n)
    } else {
        let text = chars_of(values.one("half").unwrap().as_str());
        let (y, n) = parse_calendar_period(text.as_slice(), "half", 2)?;
        ReviewScope::Half(y, n)
    };
    Ok(Command::Review(ReviewArgs {
        repo: values.one("directory"),
        scope,
        all_projects: values.present("all-projects"),
        output: values.one("output"),
        force: values.present("force"),
    }))
}

/// The review period options are not switches.
proof fn lemma_time_names_take_values()
    ensures
        !is_switch("year"@) && "year"@ != "verbose"@,
        !is_switch("month"@) && "month"@ != "verbose"@,
        !is_switch("quarter"@) && "quarter"@ != "verbose"@,
        !is_switch("half"@) && "half"@ != "verbose"@,
{
    reveal_strlit("year");
    reveal_strlit("month");
    reveal_strlit("quarter");
    reveal_strlit("half");
    reveal_strlit("changed");
    reveal_strlit("force");
    reveal_strlit("verbose");
    reveal_strlit("all-time");
    reveal_strlit("all-projects");
    reveal_strlit("yes");
    assert("year"@[0] != "changed"@[0] && "year"@[0] != "force"@[0] && "year"@[0] != "verbose"@[0]
        && "year"@[0] != "all-time"@[0] && "year"@[0] != "all-projects"@[0]);
    assert("year"@.len() != "yes"@.len());
    assert("month"@[0] != "changed"@[0] && "month"@[0] != "force"@[0] && "month"@[0] != "verbose"@[0]
        && "month"@[0] != "all-time"@[0] && "month"@[0] != "all-projects"@[0] && "month"@[0] != "yes"@[0]);
    assert("quarter"@[0] != "changed"@[0] && "quarter"@[0] != "force"@[0] && "quarter"@[0] != "verbose"@[0]
        && "quarter"@[0] != "all-time"@[0] && "quarter"@[0] != "all-projects"@[0] && "quarter"@[0] != "yes"@[0]);
    assert("half"@[0] != "changed"@[0] && "half"@[0] != "force"@[0] && "half"@[0] != "verbose"@[0]
        && "half"@[0] != "all-time"@[0] && "half"@[0] != "all-projects"@[0] && "half"@[0] != "yes"@[0]);
}

/// An option that is not a switch has a value wherever it occurs.
proof fn lemma_present_has_value(m: FlagsModel, name: Seq<char>)
    requires
        well_scanned(m),
        !is_switch(name),
        name != "verbose"@,
    ensures
        is_present(m, name) ==> one_value(m, name) is Some,
    decreases m.values.len(),
{
    if !is_present(m, name) {
        return;
    }
    let k = choose|k: int| 0 <= k < m.values.len() && (#[trigger] m.values[k]).0 == name;
    if m.values.last().0 != name {
        let r = FlagsModel { values: m.values.drop_last(), positionals: m.positionals };
        assert(r.values[k] == m.values[k]);
        assert forall|j: int| 0 <= j < r.values.len() && (#[trigger] r.values[j]).1 is None implies is_switch(
            r.values[j].0,
        ) || r.values[j].0 == "verbose"@ by {
            assert(r.values[j] == m.values[j]);
        }
        lemma_present_has_value(r, name);
    } else {
        assert(m.values[m.values.len() - 1] == m.values.last());
    }
}

fn parse_lift(args: &[String]) -> (r: Result<Command, String>)
    ensures
        agrees(r, lift_parsed(strs(args@))),
{
    let allowed: [&str; 2] = ["directory", "from"];
    assert(names(allowed@) =~= seq!["directory"@, "from"@]);
    let values = checked_flags(args, &allowed, &allowed)?;
    if values.positionals.len() != 1 {
        return Err(err("lift requires exactly one project learning ID"));
    }
    assert(views(values.positionals@)[0] == values.positionals@[0]@);
    let id = string_of(values.positionals[0].as_slice());
    if !uuid_parses(id.as_str()) {
        let mut e = chars_of("lift requires a valid UUID: ");
        push_str(&mut e, id.as_str());
        return Err(string_of(e.as_slice()));
    }
    match values.one("from") {
        None => Err(err("lift requires --from <MARKDOWN_FILE>; use --from - for stdin")),
        Some(from) => Ok(Command::Lift { repo: values.one("directory"), id, from }),
    }
}

fn parse_skill(args: &[String]) -> (r: Result<Command, String>)
    ensures
        agrees(r, skill_parsed(strs(args@))),
{
    if args.len() > 0 && arg_is(args, 0, "install") {
        let allowed: [&str; 2] = ["path", "force"];
        assert(names(allowed@) =~= seq!["path"@, "force"@]);
        let values = checked_flags(tail(args), &allowed, &allowed)?;
        if values.positionals.len() != 0 {
            return Err(err("skill install does not accept positional arguments"));
        }
        Ok(Command::SkillInstall { path: values.one("path"), force: values.present("force") })
    } else if args.len() == 1 && arg_is(args, 0, "status") {
        Ok(Command::SkillStatus)
    } else if args.len() > 0 && arg_is(args, 0, "status") {
        Err(err("skill status does not accept arguments"))
    } else {
        Err(err("skill requires `install` or `status`"))
    }
}

fn one_positional_command(args: &[String], too_many: &str, missing: &str) -> (r: Result<(Option<String>, String), String>)
    ensures
        match one_positional(strs(args@), too_many@, missing@) {
            Ok((d, p)) => r is Ok && ov(r->Ok_0.0) == d && r->Ok_0.1@ == p,
            Err(e) => r is Err && r->Err_0@ == e,
        },
{
    let values = directory_flags(args)?;
    if values.positionals.len() > 1 {
        return Err(err(too_many));
    }
    if values.positionals.len() == 0 {
        return Err(err(missing));
    }
    assert(views(values.positionals@)[0] == values.positionals@[0]@);
    Ok((values.one("directory"), string_of(values.positionals[0].as_slice())))
}

fn parse_remember(args: &[String]) -> (r: Result<Command, String>)
    ensures
        agrees(r, match only_directory(strs(args@)) {
            Err(e) => Err(e),
            Ok(m) => if m.positionals.len() != 1 {
                Err("remember requires exactly one item"@)
            } else {
                Ok(CommandModel::Remember { repo: dir(m), text: m.positionals[0] })
            },
        }),
{
    let values = directory_flags(args)?;
    if values.positionals.len() != 1 {
        return Err(err("remember requires exactly one item"));
    }
    assert(views(values.positionals@)[0] == values.positionals@[0]@);
    Ok(Command::Remember {
        repo: values.one("directory"),
        text: string_of(values.positionals[0].as_slice()),
    })
}

/// Reads the command line (without the program name): the subcommand, its
/// options and its arguments. A missing `-d`/`--directory` leaves the
/// directory as `None`, the current directory.
pub fn parse(args: Vec<String>) -> (r: Result<Command, String>)
    ensures
        agrees(r, parsed(strs(args@))),
{
    if args.len() == 0 {
        return Ok(Command::Help);
    }
    let a = args.as_slice();
    let rest = tail(a);
    let c = chars_of(args[0].as_str());
    assert(strs(args@)[0] == c@);
    if text_is(c.as_slice(), "-h") || text_is(c.as_slice(), "--help") || text_is(c.as_slice(), "help") {
        Ok(Command::Help)
    } else if text_is(c.as_slice(), "-V") || text_is(c.as_slice(), "--version") || text_is(c.as_slice(), "version") {
        Ok(Command::Version)
    } else if text_is(c.as_slice(), "init") {
        init_command(rest)
    } else if text_is(c.as_slice(), "summary") {
        Err(err("summary was replaced by review; run `tincan review` to inspect recorded history"))
    } else if text_is(c.as_slice(), "review") {
        parse_review(rest)
    } else if text_is(c.as_slice(), "projects") {
        parse_projects(rest)
    } else if text_is(c.as_slice(), "git") {
        parse_git(rest)
    } else if text_is(c.as_slice(), "decide") {
        parse_record("decision", rest)
    } else if text_is(c.as_slice(), "learn") {
        parse_record("learning", rest)
    } else if text_is(c.as_slice(), "journal") {
        parse_journal(rest)
    } else if text_is(c.as_slice(), "remember") {
        parse_remember(rest)
    } else if text_is(c.as_slice(), "later") {
        let repo = directory_only_command(rest, "later")?;
        Ok(Command::Later { repo })
    } else if text_is(c.as_slice(), "plan") {
        let repo = directory_only_command(rest, "plan")?;
        Ok(Command::Plan { repo })
    } else if text_is(c.as_slice(), "resume") {
        let repo = directory_only_command(rest, "resume")?;
        Ok(Command::Resume { repo })
    } else if text_is(c.as_slice(), "search") {
        let (repo, query) = one_positional_command(
            rest,
            "search accepts exactly one query",
            "search requires a query",
        )?;
        Ok(Command::Search { repo, query })
    } else if text_is(c.as_slice(), "show") {
        let (repo, id) = one_positional_command(
            rest,
            "show accepts exactly one record ID",
            "show requires a record ID",
        )?;
        Ok(Command::Show { repo, id })
    } else if text_is(c.as_slice(), "lift") {
        parse_lift(rest)
    } else if text_is(c.as_slice(), "changes") {
        let repo = directory_only_command(rest, "changes")?;
        Ok(Command::Changes { repo })
    } else if text_is(c.as_slice(), "skill") {
        parse_skill(rest)
    } else {
        let mut e = chars_of("unknown command: ");
        push_all(&mut e, c.as_slice());
        push_str(&mut e, "\n\n");
        push_str(&mut e, help());
        Err(string_of(e.as_slice()))
    }
}

/// The help text.
pub fn help() -> (r: &'static str)
    ensures
        r@ == help_text(),
{
    HELP
}

/// The help text printed by `tincan --help`.
pub const HELP: &'static str = r#"Tincan: a plain-Markdown development journal

Tincan keeps a living plan, daily journal, durable decisions, and learnings
under a workspace's .tincan/ directory. Markdown remains the source of truth.

USAGE
  tincan <COMMAND> [OPTIONS]

COMMANDS
  init [DIRECTORY]              Initialize private .tincan/ storage
  review [OPTIONS]              Inspect history or select retrospective context
  projects                      List registered workspaces and their status
  projects unregister TARGET    Forget one registration without changing projects
  git include [OPTIONS]          Make .tincan visible to Git without tracking it
  git exclude [OPTIONS]          Exclude .tincan from Git locally
  plan [-d|--directory PATH]    Print the living project plan
  remember [-d|--directory PATH] TEXT
                                Keep one informal item for later
  later [-d|--directory PATH]   Print the informal later shelf
  journal [OPTIONS]             Update today's concise work record
  resume [-d|--directory PATH]  Print the plan, later shelf, and latest journal
  decide STATEMENT [OPTIONS]    Create an accepted decision record
  learn STATEMENT [OPTIONS]     Create an evidence-supported learning record
  search [-d|--directory PATH] QUERY
                                List matching records and their IDs
  show [-d|--directory PATH] RECORD_ID
                                Print one record; use an ID returned by search
  lift [-d|--directory PATH] RECORD_ID --from MARKDOWN_FILE
                                Save an approved generalized global learning
  changes [-d|--directory PATH] Show memory related to Git-changed paths
  skill install [OPTIONS]       Install the bundled Agent Skill
  skill status                  Check detected Agent Skill installations
  help, --help                  Print this help
  version, --version            Print the installed Tincan version

WORKSPACES AND FILES
  Commands use the nearest parent directory containing .tincan/config.toml.
  A workspace may contain zero, one, or several Git repositories. -d is the
  short form of --directory. Tincan writes only under .tincan/ and keeps it out
  of normal Git tracking when the workspace is inside a repository.
  Global learnings live under ~/.tincan/global/learnings. Set TINCAN_HOME to
  relocate the personal .tincan directory. Search and show include global
  learnings, including when run outside a project workspace. Initialized
  workspaces are registered by stable ID for optional cross-project reviews.

RECORD IDS
  Decisions and learnings receive stable UUID v7 IDs such as
  019c4ea8-7e42-7b31-a211-8df9357d747c. `decide` and `learn` print the new ID;
  `search` prints matching project and global IDs. `show` is a convenience for
  agents and scripts. `lift` reads an approved, generalized Markdown body from
  --from (or stdin with --from -), gives it a new ID, and preserves its source
  learning as provenance.

EXAMPLES
  tincan init .
  tincan plan
  tincan remember "Explore a shorter review default"
  tincan later
  tincan review
  tincan review --quarter 2025-Q3
  tincan review --year 2025 --all-projects
  tincan projects
  tincan git include
  tincan git exclude
  tincan review --all-time --output review.md
  tincan journal --done "Implemented deterministic path matching"
  tincan decide "Keep Markdown canonical" --topic storage
  tincan learn "Paging did not reduce rendering work" --evidence "Release trace"
  tincan search "markdown"
  tincan show 019c4ea8-7e42-7b31-a211-8df9357d747c
  tincan lift 019c4ea8-7e42-7b31-a211-8df9357d747c --from global-learning.md

JOURNAL OPTIONS
  tincan journal [-d|--directory PATH] [--done TEXT ...]
                 [--planned TEXT ...] [--question TEXT ...] [--next TEXT ...]

  At least one journal bullet is required. Each bullet option is repeatable.

REVIEW
  tincan review [-d|--directory PATH]
  tincan review --year YEAR [--output FILE] [--force]
  tincan review --month YYYY-MM [--output FILE] [--force]
  tincan review --quarter YYYY-QN [--output FILE] [--force]
  tincan review --half YYYY-HN [--output FILE] [--force]
  tincan review --all-time [--output FILE] [--force]

  With no time option, show recorded date coverage and yearly counts. Time
  options are mutually exclusive. The current project is the default; add
  --all-projects to read every registered project. Output files are created
  without overwriting unless --force is provided.

PROJECTS
  tincan projects
  tincan projects unregister PATH|WORKSPACE_ID

  List registrations and whether each path is available. Unregister one by path
  or ID. Project .tincan directories are untouched.

GIT INCLUDE
  tincan git include [-d|--directory PATH] [--yes]

  Remove only Tincan's exact rule from the repository's local Git exclude file.
  This makes .tincan visible to Git but does not add or commit any files. The
  command asks for confirmation unless --yes is provided. Other ignore rules
  may still keep .tincan hidden.

GIT EXCLUDE
  tincan git exclude [-d|--directory PATH]

  Add Tincan's exact rule to the repository's local Git exclude file. This
  restores the private default without changing any tracked files.

SKILL INSTALL
  tincan skill install [--path SKILLS_DIRECTORY] [--force]

  Without --path, detect user-wide Agent Skills harnesses and select all by
  default. Each choice says whether Tincan will be installed or updated;
  already-current installations are omitted. Use arrow keys to move, Space to
  select or unselect, A to toggle all or none, Enter to continue, and Escape to
  cancel. Every installation requires answering a final Y/n confirmation;
  pressing Enter accepts. Use --path for an explicit, non-interactive or
  project-local destination.

SKILL STATUS
  tincan skill status

  Report overall Agent Skill health and group detected installations by update
  state. This command is read-only and works without an interactive terminal.

RECORD OPTIONS
  tincan decide STATEMENT [OPTIONS]
  tincan learn STATEMENT [OPTIONS]

  -d, --directory PATH
  --file WORKSPACE_PATH          repeatable
  --topic TEXT                   repeatable
  --evidence TEXT                repeatable
  --related UUID                 repeatable
  --supersedes UUID              repeatable; decisions only

  Tincan creates valid frontmatter and a UUID filename, then prints the path.
  Add detailed reasoning directly to the Markdown body below its heading.
"#;

/// The values given to option `name` on the command line, in order.
pub open spec fn option_values(values: Seq<(Seq<char>, Option<Seq<char>>)>, name: Seq<char>) -> Seq<Seq<char>> {
    values.filter(|e: (Seq<char>, Option<Seq<char>>)| e.0 == name && e.1 is Some).map_values(
        |e: (Seq<char>, Option<Seq<char>>)| e.1->0,
    )
}

proof fn lemma_many_values(values: Seq<(Seq<char>, Option<Seq<char>>)>, name: Seq<char>)
    ensures
        many_values(values, name) == option_values(values, name),
    decreases values.len(),
{
    reveal(Seq::filter);
    let f = |e: (Seq<char>, Option<Seq<char>>)| e.0 == name && e.1 is Some;
    let g = |e: (Seq<char>, Option<Seq<char>>)| e.1->0;
    if values.len() > 0 {
        lemma_many_values(values.drop_last(), name);
        let prev = values.drop_last().filter(f);
        if f(values.last()) {
            assert(values.filter(f) == prev.push(values.last()));
            assert(prev.push(values.last()).map_values(g) =~= prev.map_values(g).push(values.last().1->0));
        } else {
            assert(values.filter(f) == prev);
        }
    } else {
        assert(values.filter(f) =~= Seq::<(Seq<char>, Option<Seq<char>>)>::empty());
        assert(option_values(values, name) =~= Seq::<Seq<char>>::empty());
    }
}

/// A `decide` or `learn` command keeps every value of its list options, in
/// the order given: its files, topics, evidence, related and superseded ids
/// are the values of `--file`, `--topic`, `--evidence`, `--related` and
/// `--supersedes`.
pub proof fn lemma_record_keeps_option_values(kind: Seq<char>, args: Seq<Seq<char>>)
    requires
        record_parsed(kind, args) is Ok,
    ensures
        scanned(args) is Ok,
        record_parsed(kind, args)->Ok_0 is Record,
        ({
            let vs = scanned(args)->Ok_0.values;
            record_parsed(kind, args)->Ok_0 matches CommandModel::Record {
                files,
                topics,
                evidence,
                related,
                supersedes,
                ..
            } ==> files == option_values(vs, "file"@) && topics == option_values(vs, "topic"@)
                && evidence == option_values(vs, "evidence"@) && related == option_values(vs, "related"@)
                && supersedes == option_values(vs, "supersedes"@)
        }),
{
    let vs = scanned(args)->Ok_0.values;
    lemma_many_values(vs, "file"@);
    lemma_many_values(vs, "topic"@);
    lemma_many_values(vs, "evidence"@);
    lemma_many_values(vs, "related"@);
    lemma_many_values(vs, "supersedes"@);
}

/// A `journal` command keeps every bullet given, in order: its done,
/// planned, question and next bullets are the values of `--done`,
/// `--planned`, `--question` and `--next`.
pub proof fn lemma_journal_keeps_bullets(args: Seq<Seq<char>>)
    requires
        journal_parsed(args) is Ok,
    ensures
        scanned(args) is Ok,
        journal_parsed(args)->Ok_0 is Journal,
        ({
            let vs = scanned(args)->Ok_0.values;
            journal_parsed(args)->Ok_0 matches CommandModel::Journal { done, planned, questions, next, .. }
                ==> done == option_values(vs, "done"@) && planned == option_values(vs, "planned"@)
                && questions == option_values(vs, "question"@) && next == option_values(vs, "next"@)
        }),
{
    let vs = scanned(args)->Ok_0.values;
    lemma_many_values(vs, "done"@);
    lemma_many_values(vs, "planned"@);
    lemma_many_values(vs, "question"@);
    lemma_many_values(vs, "next"@);
}

} // verus!
