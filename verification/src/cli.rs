//! The command line: an optional rule given by flags, then the paths.
//!
//! Flags come first. A token that starts with `--` is a flag and takes the
//! token after it as its value; the first token that is no flag is the first
//! path, and every token after it is a path too, whatever it looks like. A
//! later rule replaces an earlier one. A token that is not valid Unicode is
//! given as `None`: it can be a path but neither a flag nor a flag's value.

use crate::filter::{pattern_within_limits, FileFilter, FilterMode};
use vstd::prelude::*;
use vstd::string::StringExecFns;

verus! {

/// Why a command line was refused. Each variant that speaks of a token gives
/// its position among the arguments.
#[derive(Clone, Copy, Debug, PartialEq, Eq, Structural)]
pub enum ArgError {
    /// The flag at `flag` is the last token, or the token after it is not valid Unicode.
    ExpectedValue { flag: usize },
    /// The pattern at `pattern`, the value of an include or exclude flag, is
    /// past the limits on patterns or did not build.
    InvalidGlob { pattern: usize },
    /// The flag at `flag` is neither `--include` nor `--exclude`.
    UnknownFlag { flag: usize },
    /// No token is left for a path.
    NoPaths,
}

/// A rule as the command line gives it: its mode and where its pattern stands.
#[derive(Clone, Copy, Debug, PartialEq, Eq, Structural)]
pub struct Rule {
    pub mode: FilterMode,
    pub pattern: usize,
}

/// What stands at a position of the command line.
#[derive(Clone, Copy, Debug, PartialEq, Eq, Structural)]
pub enum Token {
    /// The position is past the last token.
    End,
    /// The token is no flag: the paths begin here.
    Positional,
    /// The token is a known flag with a value: a rule, and two tokens used.
    Rule(Rule),
    /// The token is a flag that cannot be used.
    Invalid(ArgError),
}

/// The layout of a command line that was accepted: the last rule that the
/// flags gave, and where the paths begin.
#[derive(Clone, Copy, Debug, PartialEq, Eq, Structural)]
pub struct Layout {
    pub rule: Option<Rule>,
    pub first_path: usize,
}

/// A command line that was accepted: the rule, built, and where the paths begin.
#[derive(Debug)]
pub struct Invocation {
    pub filter: Option<FileFilter>,
    pub first_path: usize,
}

/// The arguments as text, `None` for one that is not valid Unicode.
pub open spec fn tokens_of(args: Seq<Option<String>>) -> Seq<Option<Seq<char>>> {
    Seq::new(
        args.len(),
        |i: int|
            match args[i] {
                Some(text) => Some(text@),
                None => None,
            },
    )
}

/// Whether a token is a flag: valid Unicode that starts with two hyphens.
pub open spec fn is_flag(token: Option<Seq<char>>) -> bool {
    token matches Some(text) && text.len() >= 2 && text[0] == '-' && text[1] == '-'
}

/// The mode that a flag's name stands for, if it is the name of a known flag.
pub open spec fn flag_mode(name: Seq<char>) -> Option<FilterMode> {
    if name == "include"@ {
        Some(FilterMode::Include)
    } else if name == "exclude"@ {
        Some(FilterMode::Exclude)
    } else {
        None
    }
}

/// What stands at position `at`. A flag without a usable value is refused
/// before its name is looked at.
pub open spec fn token_at(tokens: Seq<Option<Seq<char>>>, at: int) -> Token {
    if !(0 <= at < tokens.len()) {
        Token::End
    } else if !is_flag(tokens[at]) {
        Token::Positional
    } else if at + 1 >= tokens.len() || tokens[at + 1] is None {
        Token::Invalid(ArgError::ExpectedValue { flag: at as usize })
    } else {
        match flag_mode(tokens[at]->0.skip(2)) {
            Some(mode) => Token::Rule(Rule { mode, pattern: (at + 1) as usize }),
            None => Token::Invalid(ArgError::UnknownFlag { flag: at as usize }),
        }
    }
}

/// The layout of the command line from position `at` on, `rule` being the
/// last rule seen before it, where every pattern builds.
pub open spec fn scan(
    tokens: Seq<Option<Seq<char>>>,
    at: int,
    rule: Option<Rule>,
) -> Result<Layout, ArgError>
    decreases tokens.len() - at,
{
    match token_at(tokens, at) {
        Token::End => Err(ArgError::NoPaths),
        Token::Positional => Ok(Layout { rule, first_path: at as usize }),
        Token::Rule(next) => scan(tokens, at + 2, Some(next)),
        Token::Invalid(error) => Err(error),
    }
}

/// Whether the scan from position `at` on comes to a rule whose pattern
/// stands at `pattern`.
pub open spec fn scans_pattern(tokens: Seq<Option<Seq<char>>>, at: int, pattern: int) -> bool
    decreases tokens.len() - at,
{
    token_at(tokens, at) matches Token::Rule(rule) && (rule.pattern == pattern || scans_pattern(
        tokens,
        at + 2,
        pattern,
    ))
}

/// Whether two texts are the same.
fn same_text(a: &str, b: &str) -> (same: bool)
    ensures
        same == (a@ == b@),
{
    String::from_str(a) == String::from_str(b)
}

/// The name of a flag: the token without its two hyphens. `None` for a token
/// that is no flag.
pub fn flag_name(token: &str) -> (name: Option<&str>)
    ensures
        name is Some <==> is_flag(Some(token@)),
        name matches Some(text) ==> text@ == token@.skip(2),
{
    let len = token.unicode_len();
    if len >= 2 && token.get_char(0) == '-' && token.get_char(1) == '-' {
        let name = token.substring_char(2, len);
        assert(name@ =~= token@.skip(2));
        Some(name)
    } else {
        None
    }
}

/// What stands at position `at` of the arguments.
pub fn read_token(args: &Vec<Option<String>>, at: usize) -> (token: Token)
    ensures
        token == token_at(tokens_of(args@), at as int),
{
    if at >= args.len() {
        return Token::End;
    }
    let name = match &args[at] {
        Some(text) => match flag_name(text.as_str()) {
            Some(name) => name,
            None => {
                return Token::Positional;
            },
        },
        None => {
            return Token::Positional;
        },
    };
    if at + 1 >= args.len() || args[at + 1].is_none() {
        return Token::Invalid(ArgError::ExpectedValue { flag: at });
    }
    if same_text(name, "include") {
        Token::Rule(Rule { mode: FilterMode::Include, pattern: at + 1 })
    } else if same_text(name, "exclude") {
        Token::Rule(Rule { mode: FilterMode::Exclude, pattern: at + 1 })
    } else {
        Token::Invalid(ArgError::UnknownFlag { flag: at })
    }
}

/// Whether the token at `pattern` is a text within the limits on patterns.
pub open spec fn token_within_limits(tokens: Seq<Option<Seq<char>>>, pattern: int) -> bool {
    tokens[pattern] matches Some(text) && pattern_within_limits(text)
}

/// Whether every pattern that the scan from position `at` on comes to is
/// within the limits on patterns.
pub open spec fn patterns_within_limits(tokens: Seq<Option<Seq<char>>>, at: int) -> bool {
    forall|pattern: int| #[trigger]
        scans_pattern(tokens, at, pattern) ==> token_within_limits(tokens, pattern)
}

/// Reads the flags of a command line and builds the rule they give.
///
/// A pattern that is past the limits on patterns, and one that the glob
/// crate does not build, ends the scan with `InvalidGlob` at its position.
/// Apart from that the outcome is the scan's: the position of the first path
/// with the last rule, built from the pattern that its flag gave, or the
/// scan's error. Which of the patterns within the limits build is for the
/// glob crate to say.
pub fn parse_args(args: &Vec<Option<String>>) -> (outcome: Result<Invocation, ArgError>)
    ensures
        match outcome {
            Ok(invocation) => scan(tokens_of(args@), 0, None) matches Ok(layout)
                && invocation.first_path == layout.first_path && patterns_within_limits(
                tokens_of(args@),
                0,
            ) && match layout.rule {
                Some(rule) => invocation.filter matches Some(filter) && filter.spec_mode()
                    == rule.mode && Some(filter.source()) == tokens_of(args@)[rule.pattern as int],
                None => invocation.filter is None,
            },
            Err(ArgError::InvalidGlob { pattern }) => scans_pattern(
                tokens_of(args@),
                0,
                pattern as int,
            ),
            Err(error) => scan(tokens_of(args@), 0, None) == Err::<Layout, ArgError>(error),
        },
{
    let ghost tokens = tokens_of(args@);
    let mut filter: Option<FileFilter> = None;
    let mut at: usize = 0;
    let ghost mut rule: Option<Rule> = None;
    loop
        invariant
            tokens == tokens_of(args@),
            at <= args.len() + 1,
            scan(tokens, 0, None) == scan(tokens, at as int, rule),
            forall|pattern: int|
                scans_pattern(tokens, at as int, pattern) ==> scans_pattern(tokens, 0, pattern),
            forall|pattern: int| #[trigger]
                scans_pattern(tokens, 0, pattern) ==> scans_pattern(tokens, at as int, pattern)
                    || token_within_limits(tokens, pattern),
            match rule {
                Some(rule) => filter matches Some(filter) && filter.spec_mode() == rule.mode
                    && Some(filter.source()) == tokens[rule.pattern as int],
                None => filter is None,
            },
        decreases args.len() + 1 - at,
    {
        match read_token(args, at) {
            Token::End => {
                return Err(ArgError::NoPaths);
            },
            Token::Positional => {
                return Ok(Invocation { filter, first_path: at });
            },
            Token::Invalid(error) => {
                return Err(error);
            },
            Token::Rule(next) => {
                let pattern = args[next.pattern].as_ref().unwrap();
                match FileFilter::new(next.mode, pattern.as_str()) {
                    Ok(built) => {
                        filter = Some(built);
                    },
                    Err(_) => {
                        return Err(ArgError::InvalidGlob { pattern: next.pattern });
                    },
                }
                proof {
                    rule = Some(next);
                }
                at = at + 2;
            },
        }
    }
}

} // verus!
