//! The command line of the `leviticus` tool: a global `-v`/`--verbose`
//! flag and one subcommand, three of which take a name.

use vstd::prelude::*;

use crate::args::{is_word, lemma_flag_anywhere, split_args, split_tokens, tokens, ParseError};

verus! {

/// A parsed command line.
#[derive(Debug)]
pub struct Cli {
    pub verbose: bool,
    pub command: Command,
}

/// The subcommands.
#[derive(Debug)]
pub enum Command {
    Start,
    Status,
    Explain,
    ExplainDoc,
    View { name: String },
    ViewFork { name: String },
    Deps { name: String },
    Stop,
    Reload,
    ViewList,
}

/// A subcommand as a mathematical value.
pub enum CommandSpec {
    Start,
    Status,
    Explain,
    ExplainDoc,
    View(Seq<char>),
    ViewFork(Seq<char>),
    Deps(Seq<char>),
    Stop,
    Reload,
    ViewList,
}

impl Command {
    pub open spec fn spec_value(&self) -> CommandSpec {
        match self {
            Command::Start => CommandSpec::Start,
            Command::Status => CommandSpec::Status,
            Command::Explain => CommandSpec::Explain,
            Command::ExplainDoc => CommandSpec::ExplainDoc,
            Command::View { name } => CommandSpec::View(name@),
            Command::ViewFork { name } => CommandSpec::ViewFork(name@),
            Command::Deps { name } => CommandSpec::Deps(name@),
            Command::Stop => CommandSpec::Stop,
            Command::Reload => CommandSpec::Reload,
            Command::ViewList => CommandSpec::ViewList,
        }
    }
}

impl Cli {
    pub open spec fn spec_value(&self) -> (bool, CommandSpec) {
        (self.verbose, self.command.spec_value())
    }
}

/// A subcommand that takes no name: any further word is refused.
pub open spec fn bare(c: CommandSpec, words: Seq<Seq<char>>) -> Result<CommandSpec, ParseError> {
    if words.len() > 1 {
        Err(ParseError::UnexpectedValue)
    } else {
        Ok(c)
    }
}

/// A subcommand that takes exactly one name, the second word.
pub open spec fn named(words: Seq<Seq<char>>) -> Result<Seq<char>, ParseError> {
    if words.len() < 2 {
        Err(ParseError::MissingValue)
    } else if words.len() > 2 {
        Err(ParseError::UnexpectedValue)
    } else {
        Ok(words[1])
    }
}

/// The subcommand that the words name, with its argument.
pub open spec fn command_spec(words: Seq<Seq<char>>) -> Result<CommandSpec, ParseError> {
    if words.len() == 0 {
        Err(ParseError::MissingSubcommand)
    } else {
        let w = words[0];
        if w == "start"@ {
            bare(CommandSpec::Start, words)
        } else if w == "status"@ {
            bare(CommandSpec::Status, words)
        } else if w == "explain"@ {
            bare(CommandSpec::Explain, words)
        } else if w == "explain-doc"@ {
            bare(CommandSpec::ExplainDoc, words)
        } else if w == "view"@ {
            match named(words) {
                Ok(n) => Ok(CommandSpec::View(n)),
                Err(e) => Err(e),
            }
        } else if w == "view-fork"@ {
            match named(words) {
                Ok(n) => Ok(CommandSpec::ViewFork(n)),
                Err(e) => Err(e),
            }
        } else if w == "deps"@ {
            match named(words) {
                Ok(n) => Ok(CommandSpec::Deps(n)),
                Err(e) => Err(e),
            }
        } else if w == "stop"@ {
            bare(CommandSpec::Stop, words)
        } else if w == "reload"@ {
            bare(CommandSpec::Reload, words)
        } else if w == "view-list"@ {
            bare(CommandSpec::ViewList, words)
        } else {
            Err(ParseError::UnknownSubcommand)
        }
    }
}

/// The meaning of a whole command line, program name first.
pub open spec fn parse_spec(args: Seq<String>) -> Result<(bool, CommandSpec), ParseError> {
    parse_tokens(tokens(args))
}

/// The meaning of the tokens after the program name.
pub open spec fn parse_tokens(ts: Seq<Seq<char>>) -> Result<(bool, CommandSpec), ParseError> {
    match split_tokens(ts) {
        Err(e) => Err(e),
        Ok((verbose, words)) => match command_spec(words) {
            Ok(c) => Ok((verbose, c)),
            Err(e) => Err(e),
        },
    }
}

fn take_name(words: &Vec<String>) -> (r: Result<String, ParseError>)
    requires
        words@.len() >= 1,
    ensures
        (match r {
            Ok(n) => Ok(n@),
            Err(e) => Err(e),
        }) == named(words@.map_values(|w: String| w@)),
{
    if words.len() < 2 {
        Err(ParseError::MissingValue)
    } else if words.len() > 2 {
        Err(ParseError::UnexpectedValue)
    } else {
        Ok(words[1].clone())
    }
}

/// Parses a command line, program name first: the global verbose flag may
/// stand anywhere before a bare `--`, once; after the subcommand, `--` makes
/// every later token a word; the first word names the subcommand; `view`,
/// `view-fork` and `deps` take one more word, the name.
pub fn parse(args: &Vec<String>) -> (r: Result<Cli, ParseError>)
    ensures
        (match r {
            Ok(c) => Ok(c.spec_value()),
            Err(e) => Err(e),
        }) == parse_spec(args@),
{
    let split = split_args(args)?;
    let words = &split.words;
    let ghost ws = words@.map_values(|w: String| w@);
    if words.len() == 0 {
        return Err(ParseError::MissingSubcommand);
    }
    assert(ws[0] == words@[0]@);
    let extra: bool = words.len() > 1;
    let w = &words[0];
    let command = if is_word(w, "start") {
        if extra { return Err(ParseError::UnexpectedValue); }
        Command::Start
    } else if is_word(w, "status") {
        if extra { return Err(ParseError::UnexpectedValue); }
        Command::Status
    } else if is_word(w, "explain") {
        if extra { return Err(ParseError::UnexpectedValue); }
        Command::Explain
    } else if is_word(w, "explain-doc") {
        if extra { return Err(ParseError::UnexpectedValue); }
        Command::ExplainDoc
    } else if is_word(w, "view") {
        Command::View { name: take_name(words)? }
    } else if is_word(w, "view-fork") {
        Command::ViewFork { name: take_name(words)? }
    } else if is_word(w, "deps") {
        Command::Deps { name: take_name(words)? }
    } else if is_word(w, "stop") {
        if extra { return Err(ParseError::UnexpectedValue); }
        Command::Stop
    } else if is_word(w, "reload") {
        if extra { return Err(ParseError::UnexpectedValue); }
        Command::Reload
    } else if is_word(w, "view-list") {
        if extra { return Err(ParseError::UnexpectedValue); }
        Command::ViewList
    } else {
        return Err(ParseError::UnknownSubcommand);
    };
    Ok(Cli { verbose: split.verbose, command })
}


/// The global verbose flag may stand anywhere before a bare `--`: inserting
/// it once into a command line that lacks it there sets verbose and leaves
/// the command, and any refusal, as they were.
pub proof fn lemma_verbose_anywhere(ts: Seq<Seq<char>>, k: int)
    requires
        0 <= k <= crate::args::first_separator(ts),
        crate::args::count_verbose(ts.take(crate::args::first_separator(ts) as int)) == 0,
    ensures
        parse_tokens(ts.insert(k, "-v"@)) == (match parse_tokens(ts) {
            Ok((_, c)) => Ok((true, c)),
            Err(e) => Err(e),
        }),
{
    lemma_flag_anywhere(ts, k);
}

/// The word a subcommand answers to: its name, the variant's name in kebab
/// case.
pub open spec fn answers_to(c: CommandSpec, w: Seq<char>) -> bool {
    match c {
        CommandSpec::Start => w == "start"@,
        CommandSpec::Status => w == "status"@,
        CommandSpec::Explain => w == "explain"@,
        CommandSpec::ExplainDoc => w == "explain-doc"@,
        CommandSpec::View(_) => w == "view"@,
        CommandSpec::ViewFork(_) => w == "view-fork"@,
        CommandSpec::Deps(_) => w == "deps"@,
        CommandSpec::Stop => w == "stop"@,
        CommandSpec::Reload => w == "reload"@,
        CommandSpec::ViewList => w == "view-list"@,
    }
}

/// The subcommand takes a name after it.
pub open spec fn takes_name(c: CommandSpec) -> bool {
    c is View || c is ViewFork || c is Deps
}

/// The subcommand `c` with the name `n` in place of its own.
pub open spec fn with_name(c: CommandSpec, n: Seq<char>) -> CommandSpec {
    match c {
        CommandSpec::View(_) => CommandSpec::View(n),
        CommandSpec::ViewFork(_) => CommandSpec::ViewFork(n),
        CommandSpec::Deps(_) => CommandSpec::Deps(n),
        _ => c,
    }
}

/// Every subcommand name, each with its length, first and last letter.
proof fn lemma_words()
    ensures
        "start"@.len() == 5 && "start"@[0] == 's' && "start"@[4] == 't',
        "status"@.len() == 6 && "status"@[0] == 's' && "status"@[5] == 's',
        "explain"@.len() == 7 && "explain"@[0] == 'e' && "explain"@[6] == 'n',
        "explain-doc"@.len() == 11 && "explain-doc"@[0] == 'e' && "explain-doc"@[10] == 'c',
        "view"@.len() == 4 && "view"@[0] == 'v' && "view"@[3] == 'w',
        "view-fork"@.len() == 9 && "view-fork"@[0] == 'v' && "view-fork"@[8] == 'k',
        "deps"@.len() == 4 && "deps"@[0] == 'd' && "deps"@[3] == 's',
        "stop"@.len() == 4 && "stop"@[0] == 's' && "stop"@[3] == 'p',
        "reload"@.len() == 6 && "reload"@[0] == 'r' && "reload"@[5] == 'd',
        "view-list"@.len() == 9 && "view-list"@[0] == 'v' && "view-list"@[8] == 't',
{
    reveal_strlit("start");
    reveal_strlit("status");
    reveal_strlit("explain");
    reveal_strlit("explain-doc");
    reveal_strlit("view");
    reveal_strlit("view-fork");
    reveal_strlit("deps");
    reveal_strlit("stop");
    reveal_strlit("reload");
    reveal_strlit("view-list");
}

/// What the grammar accepts is what the words ask for: the first word
/// answers to the subcommand given, a subcommand that takes a name gets the
/// second word as its name, and no word is left over.
pub proof fn lemma_accepted_words(words: Seq<Seq<char>>, c: CommandSpec)
    requires
        command_spec(words) == Ok::<CommandSpec, ParseError>(c),
    ensures
        words.len() >= 1,
        answers_to(c, words[0]),
        words.len() == if takes_name(c) {
            2int
        } else {
            1int
        },
        takes_name(c) ==> c == with_name(c, words[1]),
{
}

/// A first word that answers to a subcommand selects it: with the right
/// number of further words the result is that subcommand, with the second
/// word as its name where it takes one; a missing name and a word too many
/// are refused.
pub proof fn lemma_words_select(words: Seq<Seq<char>>, c: CommandSpec)
    requires
        words.len() >= 1,
        answers_to(c, words[0]),
    ensures
        command_spec(words) == if takes_name(c) {
            if words.len() < 2 {
                Err(ParseError::MissingValue)
            } else if words.len() > 2 {
                Err(ParseError::UnexpectedValue)
            } else {
                Ok(with_name(c, words[1]))
            }
        } else if words.len() > 1 {
            Err(ParseError::UnexpectedValue)
        } else {
            Ok(c)
        },
{
    lemma_words();
}

/// A first word that answers to no subcommand is refused as unknown, and an
/// empty line as missing its subcommand.
pub proof fn lemma_unknown_word(words: Seq<Seq<char>>)
    requires
        words.len() >= 1 ==> forall|c: CommandSpec| !#[trigger] answers_to(c, words[0]),
    ensures
        command_spec(words) == if words.len() == 0 {
            Err::<CommandSpec, ParseError>(ParseError::MissingSubcommand)
        } else {
            Err(ParseError::UnknownSubcommand)
        },
{
    if words.len() >= 1 {
        let w = words[0];
        assert(!answers_to(CommandSpec::Start, w));
        assert(!answers_to(CommandSpec::Status, w));
        assert(!answers_to(CommandSpec::Explain, w));
        assert(!answers_to(CommandSpec::ExplainDoc, w));
        assert(!answers_to(CommandSpec::View(w), w));
        assert(!answers_to(CommandSpec::ViewFork(w), w));
        assert(!answers_to(CommandSpec::Deps(w), w));
        assert(!answers_to(CommandSpec::Stop, w));
        assert(!answers_to(CommandSpec::Reload, w));
        assert(!answers_to(CommandSpec::ViewList, w));
    }
}


} // verus!
