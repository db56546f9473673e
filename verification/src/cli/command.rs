//! The command line of the `leviticus` tool, with short aliases: a global
//! `-v`/`--verbose` flag and one subcommand, two of which take a name.

use vstd::prelude::*;

use crate::args::{is_word, lemma_flag_anywhere, split_args, split_tokens, tokens, ParseError};

verus! {

/// A parsed command line.
#[derive(Debug)]
pub struct Cli {
    pub verbose: bool,
    pub command: Command,
}

/// The subcommands.
#[derive(Debug)]
pub enum Command {
    Start,
    Status,
    Explain,
    ExplainDoc,
    View { name: String },
    ViewFork { name: String },
    Deps,
    Stop,
    Reload,
    ViewList,
}

/// A subcommand as a mathematical value.
pub enum CommandSpec {
    Start,
    Status,
    Explain,
    ExplainDoc,
    View(Seq<char>),
    ViewFork(Seq<char>),
    Deps,
    Stop,
    Reload,
    ViewList,
}

impl Command {
    pub open spec fn spec_value(&self) -> CommandSpec {
        match self {
            Command::Start => CommandSpec::Start,
            Command::Status => CommandSpec::Status,
            Command::Explain => CommandSpec::Explain,
            Command::ExplainDoc => CommandSpec::ExplainDoc,
            Command::View { name } => CommandSpec::View(name@),
            Command::ViewFork { name } => CommandSpec::ViewFork(name@),
            Command::Deps => CommandSpec::Deps,
            Command::Stop => CommandSpec::Stop,
            Command::Reload => CommandSpec::Reload,
            Command::ViewList => CommandSpec::ViewList,
        }
    }
}

impl Cli {
    pub open spec fn spec_value(&self) -> (bool, CommandSpec) {
        (self.verbose, self.command.spec_value())
    }
}

/// A subcommand that takes no name: any further word is refused.
pub open spec fn bare(c: CommandSpec, words: Seq<Seq<char>>) -> Result<CommandSpec, ParseError> {
    if words.len() > 1 {
        Err(ParseError::UnexpectedValue)
    } else {
        Ok(c)
    }
}

/// A subcommand that takes exactly one name, the second word.
pub open spec fn named(words: Seq<Seq<char>>) -> Result<Seq<char>, ParseError> {
    if words.len() < 2 {
        Err(ParseError::MissingValue)
    } else if words.len() > 2 {
        Err(ParseError::UnexpectedValue)
    } else {
        Ok(words[1])
    }
}

/// The subcommand that the words name, with its argument.
pub open spec fn command_spec(words: Seq<Seq<char>>) -> Result<CommandSpec, ParseError> {
    if words.len() == 0 {
        Err(ParseError::MissingSubcommand)
    } else {
        let w = words[0];
        if w == "start"@ || w == "up"@ {
            bare(CommandSpec::Start, words)
        } else if w == "status"@ || w == "st"@ {
            bare(CommandSpec::Status, words)
        } else if w == "explain"@ || w == "why"@ {
            bare(CommandSpec::Explain, words)
        } else if w == "explain-doc"@ {
            bare(CommandSpec::ExplainDoc, words)
        } else if w == "view"@ {
            match named(words) {
                Ok(n) => Ok(CommandSpec::View(n)),
                Err(e) => Err(e),
            }
        } else if w == "view-fork"@ {
            match named(words) {
                Ok(n) => Ok(CommandSpec::ViewFork(n)),
                Err(e) => Err(e),
            }
        } else if w == "deps"@ || w == "d"@ {
            bare(CommandSpec::Deps, words)
        } else if w == "stop"@ {
            bare(CommandSpec::Stop, words)
        } else if w == "reload"@ {
            bare(CommandSpec::Reload, words)
        } else if w == "view-list"@ {
            bare(CommandSpec::ViewList, words)
        } else {
            Err(ParseError::UnknownSubcommand)
        }
    }
}

/// The meaning of a whole command line, program name first.
pub open spec fn parse_spec(args: Seq<String>) -> Result<(bool, CommandSpec), ParseError> {
    parse_tokens(tokens(args))
}

/// The meaning of the tokens after the program name.
pub open spec fn parse_tokens(ts: Seq<Seq<char>>) -> Result<(bool, CommandSpec), ParseError> {
    match split_tokens(ts) {
        Err(e) => Err(e),
        Ok((verbose, words)) => match command_spec(words) {
            Ok(c) => Ok((verbose, c)),
            Err(e) => Err(e),
        },
    }
}

fn take_name(words: &Vec<String>) -> (r: Result<String, ParseError>)
    requires
        words@.len() >= 1,
    ensures
        (match r {
            Ok(n) => Ok(n@),
            Err(e) => Err(e),
        }) == named(words@.map_values(|w: String| w@)),
{
    if words.len() < 2 {
        Err(ParseError::MissingValue)
    } else if words.len() > 2 {
        Err(ParseError::UnexpectedValue)
    } else {
        Ok(words[1].clone())
    }
}

/// Parses a command line, program name first: the global verbose flag may
/// stand anywhere before a bare `--`, once; after the subcommand, `--` makes
/// every later token a word; the first word names the subcommand or one of its
/// aliases (`up`, `st`, `why`, `d`; `why` names `explain`, the first
/// subcommand that claims it); `view` and `view-fork` take one more word,
/// the name.
pub fn parse(args: &Vec<String>) -> (r: Result<Cli, ParseError>)
    ensures
        (match r {
            Ok(c) => Ok(c.spec_value()),
            Err(e) => Err(e),
        }) == parse_spec(args@),
{
    let split = split_args(args)?;
    let words = &split.words;
    let ghost ws = words@.map_values(|w: String| w@);
    if words.len() == 0 {
        return Err(ParseError::MissingSubcommand);
    }
    assert(ws[0] == words@[0]@);
    let extra: bool = words.len() > 1;
    let w = &words[0];
    let command = if is_word(w, "start") || is_word(w, "up") {
        if extra { return Err(ParseError::UnexpectedValue); }
        Command::Start
    } else if is_word(w, "status") || is_word(w, "st") {
        if extra { return Err(ParseError::UnexpectedValue); }
        Command::Status
    } else if is_word(w, "explain") || is_word(w, "why") {
        if extra { return Err(ParseError::UnexpectedValue); }
        Command::Explain
    } else if is_word(w, "explain-doc") {
        if extra { return Err(ParseError::UnexpectedValue); }
        Command::ExplainDoc
    } else if is_word(w, "view") {
        Command::View { name: take_name(words)? }
    } else if is_word(w, "view-fork") {
        Command::ViewFork { name: take_name(words)? }
    } else if is_word(w, "deps") || is_word(w, "d") {
        if extra { return Err(ParseError::UnexpectedValue); }
        Command::Deps
    } else if is_word(w, "stop") {
        if extra { return Err(ParseError::UnexpectedValue); }
        Command::Stop
    } else if is_word(w, "reload") {
        if extra { return Err(ParseError::UnexpectedValue); }
        Command::Reload
    } else if is_word(w, "view-list") {
        if extra { return Err(ParseError::UnexpectedValue); }
        Command::ViewList
    } else {
        return Err(ParseError::UnknownSubcommand);
    };
    Ok(Cli { verbose: split.verbose, command })
}


/// The global verbose flag may stand anywhere before a bare `--`: inserting
/// it once into a command line that lacks it there sets verbose and leaves
/// the command, and any refusal, as they were.
pub proof fn lemma_verbose_anywhere(ts: Seq<Seq<char>>, k: int)
    requires
        0 <= k <= crate::args::first_separator(ts),
        crate::args::count_verbose(ts.take(crate::args::first_separator(ts) as int)) == 0,
    ensures
        parse_tokens(ts.insert(k, "-v"@)) == (match parse_tokens(ts) {
            Ok((_, c)) => Ok((true, c)),
            Err(e) => Err(e),
        }),
{
    lemma_flag_anywhere(ts, k);
}

/// Each alias names the same subcommand as its full name, with the same words after it.
pub proof fn lemma_aliases(words: Seq<Seq<char>>)
    requires
        words.len() >= 1,
    ensures
        command_spec(words.update(0, "up"@)) == command_spec(words.update(0, "start"@)),
        command_spec(words.update(0, "st"@)) == command_spec(words.update(0, "status"@)),
        command_spec(words.update(0, "why"@)) == command_spec(words.update(0, "explain"@)),
        command_spec(words.update(0, "d"@)) == command_spec(words.update(0, "deps"@)),
{
    assert(command_spec(words.update(0, "up"@)) == command_spec(
        words.update(0, "start"@),
    )) by {
        reveal_strlit("start");
        reveal_strlit("up");
        assert(words.update(0, "up"@)[0] == "up"@);
        assert(words.update(0, "start"@)[0] == "start"@);
    }
    assert(command_spec(words.update(0, "st"@)) == command_spec(
        words.update(0, "status"@),
    )) by {
        reveal_strlit("start");
        reveal_strlit("up");
        reveal_strlit("status");
        reveal_strlit("st");
        lemma_differ("st"@, "start"@);
        lemma_differ("status"@, "start"@);
        lemma_differ("st"@, "up"@);
        lemma_differ("status"@, "up"@);
        assert(words.update(0, "st"@)[0] == "st"@);
        assert(words.update(0, "status"@)[0] == "status"@);
    }
    assert(command_spec(words.update(0, "why"@)) == command_spec(
        words.update(0, "explain"@),
    )) by {
        reveal_strlit("start");
        reveal_strlit("up");
        reveal_strlit("status");
        reveal_strlit("st");
        reveal_strlit("explain");
        reveal_strlit("why");
        lemma_differ("why"@, "start"@);
        lemma_differ("explain"@, "start"@);
        lemma_differ("why"@, "up"@);
        lemma_differ("explain"@, "up"@);
        lemma_differ("why"@, "status"@);
        lemma_differ("explain"@, "status"@);
        lemma_differ("why"@, "st"@);
        lemma_differ("explain"@, "st"@);
        assert(words.update(0, "why"@)[0] == "why"@);
        assert(words.update(0, "explain"@)[0] == "explain"@);
    }
    assert(command_spec(words.update(0, "d"@)) == command_spec(
        words.update(0, "deps"@),
    )) by {
        reveal_strlit("start");
        reveal_strlit("up");
        reveal_strlit("status");
        reveal_strlit("st");
        reveal_strlit("explain");
        reveal_strlit("why");
        reveal_strlit("explain-doc");
        reveal_strlit("view");
        reveal_strlit("view-fork");
        reveal_strlit("deps");
        reveal_strlit("d");
        lemma_differ("d"@, "start"@);
        lemma_differ("deps"@, "start"@);
        lemma_differ("d"@, "up"@);
        lemma_differ("deps"@, "up"@);
        lemma_differ("d"@, "status"@);
        lemma_differ("deps"@, "status"@);
        lemma_differ("d"@, "st"@);
        lemma_differ("deps"@, "st"@);
        lemma_differ("d"@, "explain"@);
        lemma_differ("deps"@, "explain"@);
        lemma_differ("d"@, "why"@);
        lemma_differ("deps"@, "why"@);
        lemma_differ("d"@, "explain-doc"@);
        lemma_differ("deps"@, "explain-doc"@);
        lemma_differ("d"@, "view"@);
        lemma_differ("deps"@, "view"@);
        lemma_differ("d"@, "view-fork"@);
        lemma_differ("deps"@, "view-fork"@);
        assert(words.update(0, "d"@)[0] == "d"@);
        assert(words.update(0, "deps"@)[0] == "deps"@);
    }
}

/// Two words differ when their lengths or first letters do.
proof fn lemma_differ(a: Seq<char>, b: Seq<char>)
    requires
        a.len() != b.len() || (a.len() > 0 && b.len() > 0 && a[0] != b[0]),
    ensures
        a != b,
{
}

/// The words a subcommand answers to: its name, the variant's name in
/// kebab case, and its aliases. `why` answers for `explain`, the first
/// subcommand that claims it.
pub open spec fn answers_to(c: CommandSpec, w: Seq<char>) -> bool {
    match c {
        CommandSpec::Start => w == "start"@ || w == "up"@,
        CommandSpec::Status => w == "status"@ || w == "st"@,
        CommandSpec::Explain => w == "explain"@ || w == "why"@,
        CommandSpec::ExplainDoc => w == "explain-doc"@,
        CommandSpec::View(_) => w == "view"@,
        CommandSpec::ViewFork(_) => w == "view-fork"@,
        CommandSpec::Deps => w == "deps"@ || w == "d"@,
        CommandSpec::Stop => w == "stop"@,
        CommandSpec::Reload => w == "reload"@,
        CommandSpec::ViewList => w == "view-list"@,
    }
}

/// The subcommand takes a name after it.
pub open spec fn takes_name(c: CommandSpec) -> bool {
    c is View || c is ViewFork
}

/// The subcommand `c` with the name `n` in place of its own.
pub open spec fn with_name(c: CommandSpec, n: Seq<char>) -> CommandSpec {
    match c {
        CommandSpec::View(_) => CommandSpec::View(n),
        CommandSpec::ViewFork(_) => CommandSpec::ViewFork(n),
        _ => c,
    }
}

/// Every subcommand name and alias, each with its length, first and last letter.
proof fn lemma_words()
    ensures
        "start"@.len() == 5 && "start"@[0] == 's' && "start"@[4] == 't',
        "up"@.len() == 2 && "up"@[0] == 'u' && "up"@[1] == 'p',
        "status"@.len() == 6 && "status"@[0] == 's' && "status"@[5] == 's',
        "st"@.len() == 2 && "st"@[0] == 's' && "st"@[1] == 't',
        "explain"@.len() == 7 && "explain"@[0] == 'e' && "explain"@[6] == 'n',
        "why"@.len() == 3 && "why"@[0] == 'w' && "why"@[2] == 'y',
        "explain-doc"@.len() == 11 && "explain-doc"@[0] == 'e' && "explain-doc"@[10] == 'c',
        "view"@.len() == 4 && "view"@[0] == 'v' && "view"@[3] == 'w',
        "view-fork"@.len() == 9 && "view-fork"@[0] == 'v' && "view-fork"@[8] == 'k',
        "deps"@.len() == 4 && "deps"@[0] == 'd' && "deps"@[3] == 's',
        "d"@.len() == 1 && "d"@[0] == 'd',
        "stop"@.len() == 4 && "stop"@[0] == 's' && "stop"@[3] == 'p',
        "reload"@.len() == 6 && "reload"@[0] == 'r' && "reload"@[5] == 'd',
        "view-list"@.len() == 9 && "view-list"@[0] == 'v' && "view-list"@[8] == 't',
{
    reveal_strlit("start");
    reveal_strlit("up");
    reveal_strlit("status");
    reveal_strlit("st");
    reveal_strlit("explain");
    reveal_strlit("why");
    reveal_strlit("explain-doc");
    reveal_strlit("view");
    reveal_strlit("view-fork");
    reveal_strlit("deps");
    reveal_strlit("d");
    reveal_strlit("stop");
    reveal_strlit("reload");
    reveal_strlit("view-list");
}

/// What the grammar accepts is what the words ask for: the first word
/// answers to the subcommand given, a subcommand that takes a name gets the
/// second word as its name, and no word is left over.
pub proof fn lemma_accepted_words(words: Seq<Seq<char>>, c: CommandSpec)
    requires
        command_spec(words) == Ok::<CommandSpec, ParseError>(c),
    ensures
        words.len() >= 1,
        answers_to(c, words[0]),
        words.len() == if takes_name(c) {
            2int
        } else {
            1int
        },
        takes_name(c) ==> c == with_name(c, words[1]),
{
}

/// A first word that answers to a subcommand selects it: with the right
/// number of further words the result is that subcommand, with the second
/// word as its name where it takes one; a missing name and a word too many
/// are refused.
pub proof fn lemma_words_select(words: Seq<Seq<char>>, c: CommandSpec)
    requires
        words.len() >= 1,
        answers_to(c, words[0]),
    ensures
        command_spec(words) == if takes_name(c) {
            if words.len() < 2 {
                Err(ParseError::MissingValue)
            } else if words.len() > 2 {
                Err(ParseError::UnexpectedValue)
            } else {
                Ok(with_name(c, words[1]))
            }
        } else if words.len() > 1 {
            Err(ParseError::UnexpectedValue)
        } else {
            Ok(c)
        },
{
    lemma_words();
}

/// A first word that answers to no subcommand is refused as unknown, and an
/// empty line as missing its subcommand.
pub proof fn lemma_unknown_word(words: Seq<Seq<char>>)
    requires
        words.len() >= 1 ==> forall|c: CommandSpec| !#[trigger] answers_to(c, words[0]),
    ensures
        command_spec(words) == if words.len() == 0 {
            Err::<CommandSpec, ParseError>(ParseError::MissingSubcommand)
        } else {
            Err(ParseError::UnknownSubcommand)
        },
{
    if words.len() >= 1 {
        let w = words[0];
        assert(!answers_to(CommandSpec::Start, w));
        assert(!answers_to(CommandSpec::Status, w));
        assert(!answers_to(CommandSpec::Explain, w));
        assert(!answers_to(CommandSpec::ExplainDoc, w));
        assert(!answers_to(CommandSpec::View(w), w));
        assert(!answers_to(CommandSpec::ViewFork(w), w));
        assert(!answers_to(CommandSpec::Deps, w));
        assert(!answers_to(CommandSpec::Stop, w));
        assert(!answers_to(CommandSpec::Reload, w));
        assert(!answers_to(CommandSpec::ViewList, w));
    }
}

} // verus!
