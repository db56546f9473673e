//! The token rules that both command-line grammars share: the global
//! `-v`/`--verbose` flag, option-like tokens, and positional words.

use vstd::prelude::*;
use vstd::string::StrSliceExecFns;

verus! {

/// Why a command line was not accepted.
#[derive(Clone, Copy, Debug, PartialEq, Eq, Structural)]
pub enum ParseError {
    /// A token that starts with `-` and is neither `-v` nor `--verbose`.
    UnknownArgument,
    /// The verbose flag was given more than once.
    RepeatedFlag,
    /// No subcommand was given.
    MissingSubcommand,
    /// The first word is no subcommand's name or alias.
    UnknownSubcommand,
    /// The subcommand needs a name and none was given.
    MissingValue,
    /// More words were given than the subcommand takes.
    UnexpectedValue,
}

/// The verbose flag, in its short or long form.
pub open spec fn is_verbose_flag(t: Seq<char>) -> bool {
    t == "-v"@ || t == "--verbose"@
}

/// A token that reads as an option: a `-` followed by at least one character.
pub open spec fn is_option(t: Seq<char>) -> bool {
    t.len() > 1 && t[0] == '-'
}

/// The tokens after the program name.
pub open spec fn tokens(args: Seq<String>) -> Seq<Seq<char>> {
    if args.len() == 0 {
        Seq::empty()
    } else {
        args.skip(1).map_values(|a: String| a@)
    }
}

/// How many times the verbose flag occurs.
pub open spec fn count_verbose(ts: Seq<Seq<char>>) -> nat
    decreases ts.len(),
{
    if ts.len() == 0 {
        0
    } else {
        count_verbose(ts.drop_last()) + if is_verbose_flag(ts.last()) {
            1nat
        } else {
            0nat
        }
    }
}

/// The tokens that are not options, in order.
pub open spec fn positionals(ts: Seq<Seq<char>>) -> Seq<Seq<char>>
    decreases ts.len(),
{
    if ts.len() == 0 {
        Seq::empty()
    } else if is_option(ts.last()) {
        positionals(ts.drop_last())
    } else {
        positionals(ts.drop_last()).push(ts.last())
    }
}

/// Some token is an option other than the verbose flag.
pub open spec fn has_unknown_option(ts: Seq<Seq<char>>) -> bool {
    exists|i: int| 0 <= i < ts.len() && is_option(#[trigger] ts[i]) && !is_verbose_flag(ts[i])
}

/// The flags and words of a command line (program name first).
pub open spec fn split_spec(args: Seq<String>) -> Result<(bool, Seq<Seq<char>>), ParseError> {
    split_tokens(tokens(args))
}

/// The position of the first bare `--` among the tokens, or their length
/// where there is none.
pub open spec fn first_separator(ts: Seq<Seq<char>>) -> nat
    decreases ts.len(),
{
    if ts.len() == 0 {
        0
    } else if first_separator(ts.drop_last()) < ts.len() - 1 {
        first_separator(ts.drop_last())
    } else if ts.last() == "--"@ {
        (ts.len() - 1) as nat
    } else {
        ts.len()
    }
}

/// The tokens after the first bare `--`; none where there is no `--`.
pub open spec fn after_separator(ts: Seq<Seq<char>>) -> Seq<Seq<char>> {
    if first_separator(ts) < ts.len() {
        ts.skip(first_separator(ts) + 1int)
    } else {
        Seq::empty()
    }
}

/// The flags and words of the tokens after the program name. A bare `--`
/// ends the options: every token after it is a word, whatever it looks
/// like. Before it, an unknown option is refused first, then a repeated
/// verbose flag; a `--` that comes before any word (so before the
/// subcommand) is refused too. Otherwise the result is the verbose setting
/// and the words in order: those before the `--`, then all after it.
pub open spec fn split_tokens(ts: Seq<Seq<char>>) -> Result<(bool, Seq<Seq<char>>), ParseError> {
    let head = ts.take(first_separator(ts) as int);
    if has_unknown_option(head) {
        Err(ParseError::UnknownArgument)
    } else if count_verbose(head) > 1 {
        Err(ParseError::RepeatedFlag)
    } else if first_separator(ts) < ts.len() && positionals(head).len() == 0 {
        Err(ParseError::UnknownArgument)
    } else {
        Ok((count_verbose(head) == 1, positionals(head) + after_separator(ts)))
    }
}

/// The first separator lies within the tokens, and is a `--` where it is
/// not their end.
pub proof fn lemma_first_separator(ts: Seq<Seq<char>>)
    ensures
        first_separator(ts) <= ts.len(),
        first_separator(ts) < ts.len() ==> ts[first_separator(ts) as int] == "--"@,
    decreases ts.len(),
{
    if ts.len() > 0 {
        lemma_first_separator(ts.drop_last());
    }
}

/// The flags and words of a command line.
pub struct Split {
    pub verbose: bool,
    pub words: Vec<String>,
}

impl Split {
    pub open spec fn spec_pair(&self) -> (bool, Seq<Seq<char>>) {
        (self.verbose, self.words@.map_values(|w: String| w@))
    }
}

/// Whether `t` is exactly the text `lit`.
pub fn is_word(t: &String, lit: &str) -> (r: bool)
    ensures
        r == (t@ == lit@),
{
    *t == String::from_str(lit)
}

fn is_option_token(t: &String) -> (r: bool)
    ensures
        r == is_option(t@),
{
    let s: &str = t.as_str();
    s.unicode_len() > 1 && s.get_char(0) == '-'
}

/// Splits a command line (program name first) into the verbose setting and
/// the words.
pub fn split_args(args: &Vec<String>) -> (r: Result<Split, ParseError>)
    ensures
        (match r {
            Ok(s) => Ok(s.spec_pair()),
            Err(e) => Err(e),
        }) == split_spec(args@),
{
    let ghost ts = tokens(args@);
    let mut verbose_count: usize = 0;
    let mut unknown: bool = false;
    let mut escaped: bool = false;
    let mut head_words: usize = 0;
    let mut words: Vec<String> = Vec::new();
    let mut i: usize = if args.len() == 0 {
        0
    } else {
        1
    };
    let ghost first: int = i as int;
    assert(ts.len() == args@.len() - first);
    assert(ts.take(0) =~= Seq::<Seq<char>>::empty());
    while i < args.len()
        invariant
            ts == tokens(args@),
            first == (if args@.len() == 0 { 0int } else { 1int }),
            ts.len() == args@.len() - first,
            first <= i <= args@.len(),
            forall|k: int| 0 <= k < ts.len() ==> #[trigger] ts[k] == args@[k + first]@,
            first_separator(ts.take(i - first)) <= i - first,
            escaped == (first_separator(ts.take(i - first)) < i - first),
            verbose_count == count_verbose(ts.take(first_separator(ts.take(i - first)) as int)),
            verbose_count <= i,
            unknown == has_unknown_option(ts.take(first_separator(ts.take(i - first)) as int)),
            escaped ==> head_words == positionals(
                ts.take(first_separator(ts.take(i - first)) as int),
            ).len(),
            words@.map_values(|w: String| w@) == positionals(
                ts.take(first_separator(ts.take(i - first)) as int),
            ) + if escaped {
                ts.take(i - first).skip(first_separator(ts.take(i - first)) + 1int)
            } else {
                Seq::<Seq<char>>::empty()
            },
        decreases args@.len() - i,
    {
        let ghost k: int = i - first;
        let ghost prev = ts.take(k);
        let ghost sep = first_separator(prev) as int;
        let t = &args[i];
        assert(ts.take(k + 1).drop_last() =~= prev);
        assert(ts.take(k + 1).last() == t@);
        if escaped {
            let ghost before = words@.map_values(|w: String| w@);
            words.push(t.clone());
            assert(ts.take(k + 1).skip(sep + 1) =~= prev.skip(sep + 1).push(t@));
            assert(words@.map_values(|w: String| w@) =~= before.push(t@));
        } else if is_word(t, "--") {
            escaped = true;
            head_words = words.len();
            assert(ts.take(k + 1).skip(k + 1) =~= Seq::<Seq<char>>::empty());
            assert(ts.take(k) =~= prev);
        } else {
            assert(prev.take(k) =~= prev);
            if is_word(t, "-v") || is_word(t, "--verbose") {
                verbose_count = verbose_count + 1;
            }
            if is_option_token(t) {
                if !(is_word(t, "-v") || is_word(t, "--verbose")) {
                    unknown = true;
                }
            } else {
                words.push(t.clone());
            }
            assert(ts.take(k + 1).take(k + 1) =~= ts.take(k + 1));
            assert(ts.take(k) =~= prev);
            assert(words@.map_values(|w: String| w@) =~= positionals(ts.take(k + 1)));
            proof {
                lemma_unknown_push(prev, t@);
            }
            assert(ts.take(k + 1) =~= prev.push(t@));
        }
        i = i + 1;
    }
    assert(ts.take(i - first) =~= ts);
    proof {
        lemma_first_separator(ts);
    }
    if unknown {
        Err(ParseError::UnknownArgument)
    } else if verbose_count > 1 {
        Err(ParseError::RepeatedFlag)
    } else if escaped && head_words == 0 {
        Err(ParseError::UnknownArgument)
    } else {
        Ok(Split { verbose: verbose_count == 1, words })
    }
}

proof fn lemma_unknown_push(prev: Seq<Seq<char>>, t: Seq<char>)
    ensures
        has_unknown_option(prev.push(t)) == (has_unknown_option(prev) || (is_option(t)
            && !is_verbose_flag(t))),
{
    let next = prev.push(t);
    if has_unknown_option(next) && !(is_option(t) && !is_verbose_flag(t)) {
        let j = choose|j: int|
            0 <= j < next.len() && is_option(#[trigger] next[j]) && !is_verbose_flag(next[j]);
        assert(prev[j] == next[j]);
    }
    if has_unknown_option(prev) {
        let j = choose|j: int|
            0 <= j < prev.len() && is_option(#[trigger] prev[j]) && !is_verbose_flag(prev[j]);
        assert(prev[j] == next[j]);
    }
    if is_option(t) && !is_verbose_flag(t) {
        assert(next[prev.len() as int] == t);
    }
}

proof fn lemma_insert_option(ts: Seq<Seq<char>>, k: int, x: Seq<char>)
    requires
        0 <= k <= ts.len(),
        is_option(x),
    ensures
        positionals(ts.insert(k, x)) == positionals(ts),
        count_verbose(ts.insert(k, x)) == count_verbose(ts) + if is_verbose_flag(x) {
            1nat
        } else {
            0nat
        },
    decreases ts.len(),
{
    let t = ts.insert(k, x);
    if k == ts.len() {
        assert(t.drop_last() =~= ts);
        assert(t.last() == x);
    } else {
        assert(t.drop_last() =~= ts.drop_last().insert(k, x));
        assert(t.last() == ts.last());
        lemma_insert_option(ts.drop_last(), k, x);
    }
}

/// A token other than `--` inserted before the first separator moves it one
/// place on.
proof fn lemma_insert_before_separator(ts: Seq<Seq<char>>, k: int, x: Seq<char>)
    requires
        0 <= k <= first_separator(ts),
        x != "--"@,
    ensures
        first_separator(ts.insert(k, x)) == first_separator(ts) + 1,
    decreases ts.len(),
{
    lemma_first_separator(ts);
    let t = ts.insert(k, x);
    if k == ts.len() {
        assert(t.drop_last() =~= ts);
        assert(t.last() == x);
    } else {
        lemma_first_separator(ts.drop_last());
        assert(t.drop_last() =~= ts.drop_last().insert(k, x));
        assert(t.last() == ts.last());
        lemma_insert_before_separator(ts.drop_last(), k, x);
    }
}

/// The verbose flag may stand anywhere before a bare `--`: inserting it once
/// into tokens that lack it there sets verbose and leaves the words, and any
/// refusal, as they were. (After a `--` it would be a word.)
pub proof fn lemma_flag_anywhere(ts: Seq<Seq<char>>, k: int)
    requires
        0 <= k <= first_separator(ts),
        count_verbose(ts.take(first_separator(ts) as int)) == 0,
    ensures
        split_tokens(ts.insert(k, "-v"@)) == (match split_tokens(ts) {
            Ok((_, words)) => Ok((true, words)),
            Err(e) => Err(e),
        }),
{
    reveal_strlit("-v");
    reveal_strlit("--");
    let x = "-v"@;
    assert(x != "--"@) by {
        assert(x[1] != "--"@[1]);
    }
    assert(is_option(x));
    assert(is_verbose_flag(x));
    lemma_first_separator(ts);
    lemma_insert_before_separator(ts, k, x);
    let sep = first_separator(ts) as int;
    let head = ts.take(sep);
    let t = ts.insert(k, x);
    lemma_insert_option(head, k, x);
    assert(t.take(sep + 1) =~= head.insert(k, x));
    if sep < ts.len() {
        assert(t.skip(sep + 2) =~= ts.skip(sep + 1));
    }
    assert(after_separator(t) =~= after_separator(ts));
    assert(has_unknown_option(head.insert(k, x)) == has_unknown_option(head)) by {
        let hx = head.insert(k, x);
        if has_unknown_option(hx) {
            let j = choose|j: int| 0 <= j < hx.len() && is_option(#[trigger] hx[j]) && !is_verbose_flag(hx[j]);
            if j < k {
                assert(head[j] == hx[j]);
            } else {
                assert(j != k);
                assert(head[j - 1] == hx[j]);
            }
        }
        if has_unknown_option(head) {
            let j = choose|j: int| 0 <= j < head.len() && is_option(#[trigger] head[j]) && !is_verbose_flag(head[j]);
            if j < k {
                assert(hx[j] == head[j]);
            } else {
                assert(hx[j + 1] == head[j]);
            }
        }
    }
}


/// Plain words, with no option and no `--` among them, are taken as they
/// stand, in order, without the verbose flag.
pub proof fn lemma_plain_words(ts: Seq<Seq<char>>)
    requires
        forall|i: int| 0 <= i < ts.len() ==> !is_option(#[trigger] ts[i]),
    ensures
        split_tokens(ts) == Ok::<(bool, Seq<Seq<char>>), ParseError>((false, ts)),
{
    lemma_plain_words_parts(ts);
    assert(ts.take(ts.len() as int) =~= ts);
    assert(after_separator(ts) =~= Seq::<Seq<char>>::empty());
    assert(positionals(ts) + Seq::<Seq<char>>::empty() =~= ts);
}

proof fn lemma_plain_words_parts(ts: Seq<Seq<char>>)
    requires
        forall|i: int| 0 <= i < ts.len() ==> !is_option(#[trigger] ts[i]),
    ensures
        first_separator(ts) == ts.len(),
        count_verbose(ts) == 0,
        positionals(ts) == ts,
        !has_unknown_option(ts),
    decreases ts.len(),
{
    reveal_strlit("--");
    reveal_strlit("-v");
    reveal_strlit("--verbose");
    if ts.len() > 0 {
        let p = ts.drop_last();
        assert forall|i: int| 0 <= i < p.len() implies !is_option(#[trigger] p[i]) by {
            assert(p[i] == ts[i]);
        }
        lemma_plain_words_parts(p);
        assert(!is_option(ts[ts.len() - 1]));
        assert(ts.last() != "--"@);
        assert(!is_verbose_flag(ts.last()));
        assert(p.push(ts.last()) =~= ts);
    }
}

} // verus!
