//! Line search in a text, with or without regard to case.
use vstd::prelude::*;

verus! {

/// Whether `needle` occurs in `hay` as a contiguous run of characters.
pub open spec fn occurs_in(needle: Seq<char>, hay: Seq<char>) -> bool {
    exists|i: int|
        0 <= i && i + needle.len() <= hay.len() && #[trigger] hay.subrange(i, i + needle.len())
            == needle
}

/// The lines of a text as `str::lines` cuts them.
pub uninterp spec fn lines_of(text: Seq<char>) -> Seq<Seq<char>>;

/// The lower-case form of a text as `str::to_lowercase` gives it.
pub uninterp spec fn lower_of(text: Seq<char>) -> Seq<char>;

/// The characters of each string.
pub open spec fn views(v: Seq<&str>) -> Seq<Seq<char>> {
    v.map_values(|s: &str| s@)
}

/// The lines that satisfy `keep`, in their order.
pub open spec fn lines_where(lines: Seq<Seq<char>>, keep: spec_fn(Seq<char>) -> bool) -> Seq<
    Seq<char>,
>
    decreases lines.len(),
{
    if lines.len() == 0 {
        Seq::empty()
    } else {
        let rest = lines_where(lines.drop_last(), keep);
        if keep(lines.last()) {
            rest.push(lines.last())
        } else {
            rest
        }
    }
}

/// Relies on `str::lines`: the lines of the text, each borrowed from it.
#[verifier::external_body]
fn split_lines<'a>(text: &'a str) -> (lines: Vec<&'a str>)
    ensures
        views(lines@) == lines_of(text@),
{
    text.lines().collect()
}

/// Relies on `str::contains` with a `&str` pattern: whether the pattern occurs
/// in the text.
#[verifier::external_body]
fn contains_str(hay: &str, needle: &str) -> (found: bool)
    ensures
        found == occurs_in(needle@, hay@),
{
    hay.contains(needle)
}

/// Relies on `str::to_lowercase`: the lower-case form of the text, which
/// depends on its characters alone.
#[verifier::external_body]
fn lowercase(text: &str) -> (lower: String)
    ensures
        lower@ == lower_of(text@),
{
    text.to_lowercase()
}

/// Whether `query` occurs in `line`.
pub fn line_matches(query: &str, line: &str) -> (found: bool)
    ensures
        found == occurs_in(query@, line@),
{
    contains_str(line, query)
}

/// The lines of `contents` in which `query` occurs, in their order.
pub fn search_case_sensitive<'a>(query: &str, contents: &'a str) -> (found: Vec<&'a str>)
    ensures
        views(found@) == lines_where(lines_of(contents@), |l: Seq<char>| occurs_in(query@, l)),
{
    let lines = split_lines(contents);
    let ghost keep = |l: Seq<char>| occurs_in(query@, l);
    let mut found: Vec<&'a str> = Vec::new();
    let mut i: usize = 0;
    while i < lines.len()
        invariant
            i <= lines@.len(),
            keep == (|l: Seq<char>| occurs_in(query@, l)),
            views(found@) == lines_where(views(lines@).take(i as int), keep),
        decreases lines@.len() - i,
    {
        let line = lines[i];
        let ghost before = found@;
        if line_matches(query, line) {
            found.push(line);
            assert(views(found@) =~= views(before).push(line@));
        }
        assert(views(lines@).take(i + 1).drop_last() =~= views(lines@).take(i as int));
        i = i + 1;
    }
    assert(views(lines@).take(i as int) =~= views(lines@));
    found
}

/// The lines of `contents` in which `query` occurs when both are taken in lower
/// case, in their order.
pub fn search_case_insensitive<'a>(query: &str, contents: &'a str) -> (found: Vec<&'a str>)
    ensures
        views(found@) == lines_where(
            lines_of(contents@),
            |l: Seq<char>| occurs_in(lower_of(query@), lower_of(l)),
        ),
{
    let query = lowercase(query);
    let lines = split_lines(contents);
    let ghost keep = |l: Seq<char>| occurs_in(query@, lower_of(l));
    let mut found: Vec<&'a str> = Vec::new();
    let mut i: usize = 0;
    while i < lines.len()
        invariant
            i <= lines@.len(),
            keep == (|l: Seq<char>| occurs_in(query@, lower_of(l))),
            views(found@) == lines_where(views(lines@).take(i as int), keep),
        decreases lines@.len() - i,
    {
        let line = lines[i];
        let ghost before = found@;
        let lower = lowercase(line);
        if line_matches(query.as_str(), lower.as_str()) {
            found.push(line);
            assert(views(found@) =~= views(before).push(line@));
        }
        assert(views(lines@).take(i + 1).drop_last() =~= views(lines@).take(i as int));
        i = i + 1;
    }
    assert(views(lines@).take(i as int) =~= views(lines@));
    found
}

/// Why a command line gives no search configuration.
#[derive(Clone, Copy, Debug, PartialEq, Eq, Structural)]
pub enum ConfigError {
    /// No argument after the program name.
    MissingQuery,
    /// No argument after the query.
    MissingFilename,
}

impl ConfigError {
    /// The message shown to the user.
    pub fn message(&self) -> (msg: &'static str)
        ensures
            *self == ConfigError::MissingQuery ==> msg@ == "Didn't get a query string"@,
            *self == ConfigError::MissingFilename ==> msg@ == "Didn't get a file name"@,
    {
        match self {
            ConfigError::MissingQuery => "Didn't get a query string",
            ConfigError::MissingFilename => "Didn't get a file name",
        }
    }
}

/// What to search for, where, and whether case matters.
pub struct Config {
    pub query: String,
    pub filename: String,
    pub case_sensitive: bool,
}

impl Config {
    /// The configuration given by a command line: `args[0]` is the program,
    /// `args[1]` the query and `args[2]` the file; further arguments are
    /// ignored. The search ignores case when `case_insensitive` is set.
    pub fn new(args: &Vec<String>, case_insensitive: bool) -> (cfg: Result<Config, ConfigError>)
        ensures
            args@.len() < 2 ==> cfg == Err::<Config, ConfigError>(ConfigError::MissingQuery),
            args@.len() == 2 ==> cfg == Err::<Config, ConfigError>(ConfigError::MissingFilename),
            args@.len() > 2 ==> cfg is Ok && cfg->Ok_0.query@ == args@[1]@ && cfg->Ok_0.filename@
                == args@[2]@ && cfg->Ok_0.case_sensitive == !case_insensitive,
    {
        if args.len() < 2 {
            return Err(ConfigError::MissingQuery);
        }
        if args.len() < 3 {
            return Err(ConfigError::MissingFilename);
        }
        let query = args[1].clone();
        let filename = args[2].clone();
        Ok(Config { query, filename, case_sensitive: !case_insensitive })
    }
}

} // verus!
