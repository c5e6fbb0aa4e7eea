//! The command line's values and the rules that they must meet.

use vstd::prelude::*;
use crate::paths::text_of;
use crate::text::{ascii_lower, decimal_value, eq_ignore_ascii_case, is_decimal, lowercase_of, parse_u32, text_eq, to_lowercase};

verus! {

/// The values of the command line.
#[derive(Debug, Clone)]
pub struct Cli {
    /// The folders that hold the books and comics.
    pub library_path: Vec<String>,
    /// The root of the reader's metadata tree, where metadata is kept apart.
    pub docsettings_path: Option<String>,
    /// The root of the reader's metadata folders named by fingerprint.
    pub hashdocsettings_path: Option<String>,
    /// The reader's statistics store.
    pub statistics_db: Option<String>,
    /// Where the site is written; without it the site is served.
    pub output: Option<String>,
    pub port: u16,
    pub watch: bool,
    pub title: String,
    pub include_unread: bool,
    pub heatmap_scale_max: String,
    pub timezone: Option<String>,
    pub day_start_time: Option<String>,
    pub min_pages_per_day: Option<u32>,
    pub min_time_per_day: Option<String>,
    pub include_all_stats: bool,
    pub language: String,
    pub list_languages: bool,
    pub github: bool,
}

/// The port that the site is served on unless another is asked for.
pub const DEFAULT_PORT: u16 = 3000;

/// Why a length of time could not be read.
#[derive(Debug, Clone, Copy, PartialEq, Eq, Structural)]
pub enum TimeParseError {
    /// The pattern for amounts of time could not be compiled.
    InvalidPattern,
    /// An amount is no number that fits 32 bits.
    InvalidNumber,
    /// An amount has a unit other than `h`, `m`, `min` or `s`.
    UnknownUnit,
    /// The text holds no amount of time.
    InvalidFormat,
    /// The amounts add up to nothing.
    Zero,
    /// The amounts add up to more seconds than fit 32 bits.
    TooLarge,
}

/// What `regex::Regex::new` and `Regex::captures_iter` yield for a pattern and
/// a text: `None` where the pattern does not compile, else for each match in
/// order the texts of its first and second capture group, `None` for a group
/// that the pattern lacks or that took no part in the match.
pub uninterp spec fn regex_captures_of(pattern: Seq<char>, text: Seq<char>) -> Option<
    Seq<(Option<Seq<char>>, Option<Seq<char>>)>,
>;

/// The texts of the captured pairs.
pub open spec fn capture_views(caps: Option<Vec<(Option<String>, Option<String>)>>) -> Option<
    Seq<(Option<Seq<char>>, Option<Seq<char>>)>,
> {
    match caps {
        Some(v) => Some(
            v@.map_values(|p: (Option<String>, Option<String>)| (text_of(p.0), text_of(p.1))),
        ),
        None => None,
    }
}

/// Compiles the pattern with `regex::Regex::new` and walks the matches in the
/// text with `Regex::captures_iter`, taking the first two groups of each with
/// `Captures::get`. The contract names the result.
#[verifier::external_body]
fn capture_pairs(pattern: &str, text: &str) -> (r: Option<Vec<(Option<String>, Option<String>)>>)
    ensures
        capture_views(r) == regex_captures_of(pattern@, text@),
{
    let re = regex::Regex::new(pattern).ok()?;
    Some(
        re.captures_iter(text).map(
            |c|
                (
                    c.get(1).map(|m| m.as_str().to_string()),
                    c.get(2).map(|m| m.as_str().to_string()),
                ),
        ).collect(),
    )
}

/// The seconds that one amount stands for, from its digits and its unit in
/// lowercase.
pub open spec fn token_seconds(value: Seq<char>, unit: Seq<char>) -> Result<nat, TimeParseError> {
    if !(is_decimal(value) && decimal_value(value) <= u32::MAX) {
        Err(TimeParseError::InvalidNumber)
    } else if unit == "h"@ {
        Ok(decimal_value(value) * 3600)
    } else if unit == "m"@ || unit == "min"@ {
        Ok(decimal_value(value) * 60)
    } else if unit == "s"@ {
        Ok(decimal_value(value))
    } else {
        Err(TimeParseError::UnknownUnit)
    }
}

/// The seconds that the amounts add up to, or the first error on the way.
pub open spec fn total_seconds(tokens: Seq<(Seq<char>, Seq<char>)>) -> Result<nat, TimeParseError>
    decreases tokens.len(),
{
    if tokens.len() == 0 {
        Ok(0)
    } else {
        match total_seconds(tokens.drop_last()) {
            Err(e) => Err(e),
            Ok(t) => match token_seconds(tokens.last().0, tokens.last().1) {
                Err(e) => Err(e),
                Ok(s) => if t + s > u32::MAX {
                    Err(TimeParseError::TooLarge)
                } else {
                    Ok(t + s)
                },
            },
        }
    }
}

/// The length of time that the amounts stand for: their sum in seconds, which
/// must be positive; at least one amount is needed.
pub open spec fn seconds_of(tokens: Seq<(Seq<char>, Seq<char>)>) -> Result<
    Option<u32>,
    TimeParseError,
> {
    if tokens.len() == 0 {
        Err(TimeParseError::InvalidFormat)
    } else {
        match total_seconds(tokens) {
            Err(e) => Err(e),
            Ok(t) => if t == 0 {
                Err(TimeParseError::Zero)
            } else {
                Ok(Some(t as u32))
            },
        }
    }
}

/// The amounts as plain data.
pub open spec fn token_views(s: Seq<(String, String)>) -> Seq<(Seq<char>, Seq<char>)> {
    s.map_values(|p: (String, String)| (p.0@, p.1@))
}

/// The seconds that one amount stands for.
fn seconds_of_token(value: &str, unit: &str) -> (r: Result<u64, TimeParseError>)
    ensures
        match r {
            Ok(s) => token_seconds(value@, unit@) == Ok::<nat, TimeParseError>(s as nat) && s
                <= 3600 * 0xffff_ffff,
            Err(e) => token_seconds(value@, unit@) == Err::<nat, TimeParseError>(e),
        },
{
    match parse_u32(value) {
        None => Err(TimeParseError::InvalidNumber),
        Some(v) => {
            if text_eq(unit, "h") {
                Ok(v as u64 * 3600)
            } else if text_eq(unit, "m") || text_eq(unit, "min") {
                Ok(v as u64 * 60)
            } else if text_eq(unit, "s") {
                Ok(v as u64)
            } else {
                Err(TimeParseError::UnknownUnit)
            }
        },
    }
}

/// The length of time that a list of amounts stands for, each amount given
/// as its digits and its unit in lowercase.
pub fn seconds_from_tokens(tokens: &Vec<(String, String)>) -> (r: Result<Option<u32>, TimeParseError>)
    ensures
        r == seconds_of(token_views(tokens@)),
{
    let ghost tv = token_views(tokens@);
    if tokens.len() == 0 {
        return Err(TimeParseError::InvalidFormat);
    }
    let mut total: u64 = 0;
    let mut i: usize = 0;
    while i < tokens.len()
        invariant
            i <= tokens.len(),
            tv == token_views(tokens@),
            total <= u32::MAX,
            total_seconds(tv.take(i as int)) == Ok::<nat, TimeParseError>(total as nat),
        decreases tokens.len() - i,
    {
        proof {
            assert(tv.take(i + 1).drop_last() =~= tv.take(i as int));
            assert(tv.take(i + 1).last() == (tokens@[i as int].0@, tokens@[i as int].1@));
        }
        match seconds_of_token(tokens[i].0.as_str(), tokens[i].1.as_str()) {
            Err(e) => {
                proof {
                    lemma_error_stays(tv, i + 1, e);
                }
                return Err(e);
            },
            Ok(s) => {
                if total + s > 4294967295u64 {
                    proof {
                        lemma_error_stays(tv, i + 1, TimeParseError::TooLarge);
                    }
                    return Err(TimeParseError::TooLarge);
                }
                total = total + s;
            },
        }
        i += 1;
    }
    assert(tv.take(tokens.len() as int) =~= tv);
    if total == 0 {
        Err(TimeParseError::Zero)
    } else {
        Ok(Some(total as u32))
    }
}

/// An error among the first amounts is the error of the whole.
proof fn lemma_error_stays(tokens: Seq<(Seq<char>, Seq<char>)>, k: int, e: TimeParseError)
    requires
        0 <= k <= tokens.len(),
        total_seconds(tokens.take(k)) == Err::<nat, TimeParseError>(e),
    ensures
        total_seconds(tokens) == Err::<nat, TimeParseError>(e),
    decreases tokens.len() - k,
{
    if k < tokens.len() {
        assert(tokens.take(k + 1).drop_last() =~= tokens.take(k));
        lemma_error_stays(tokens, k + 1, e);
    } else {
        assert(tokens.take(k) =~= tokens);
    }
}

/// The pattern of one amount of time: digits and a unit, in any case.
pub open spec fn time_pattern() -> Seq<char> {
    "(?i)(\\d+)(h|m|min|s)"@
}

/// The captured amounts with their units in lowercase; a missing group
/// counts as empty.
pub open spec fn lowered_tokens(caps: Seq<(Option<Seq<char>>, Option<Seq<char>>)>) -> Seq<
    (Seq<char>, Seq<char>),
> {
    caps.map_values(
        |p: (Option<Seq<char>>, Option<Seq<char>>)|
            (
                match p.0 {
                    Some(v) => v,
                    None => Seq::empty(),
                },
                lowercase_of(
                    match p.1 {
                        Some(u) => u,
                        None => Seq::empty(),
                    },
                ),
            ),
    )
}

/// What a text stands for as a length of time: `auto` in any case stands for
/// none; any other text for the sum of the amounts found in it.
pub open spec fn time_of(text: Seq<char>) -> Result<Option<u32>, TimeParseError> {
    if ascii_lower(text) == ascii_lower("auto"@) {
        Ok(None)
    } else {
        match regex_captures_of(time_pattern(), text) {
            None => Err(TimeParseError::InvalidPattern),
            Some(caps) => seconds_of(lowered_tokens(caps)),
        }
    }
}

/// Reads a length of time such as `1h`, `1h30m`, `45min` or `30s` as
/// seconds. `auto` gives `Ok(None)`.
pub fn parse_time_to_seconds(time_str: &str) -> (r: Result<Option<u32>, TimeParseError>)
    ensures
        r == time_of(time_str@),
{
    if eq_ignore_ascii_case(time_str, "auto") {
        return Ok(None);
    }
    match capture_pairs("(?i)(\\d+)(h|m|min|s)", time_str) {
        None => Err(TimeParseError::InvalidPattern),
        Some(caps) => {
            let ghost cv = capture_views(Some(caps)).unwrap();
            let mut tokens: Vec<(String, String)> = Vec::new();
            let mut i: usize = 0;
            while i < caps.len()
                invariant
                    i <= caps.len(),
                    cv == capture_views(Some(caps)).unwrap(),
                    token_views(tokens@) == lowered_tokens(cv).take(i as int),
                decreases caps.len() - i,
            {
                let value = match &caps[i].0 {
                    Some(v) => v.clone(),
                    None => String::new(),
                };
                let unit = match &caps[i].1 {
                    Some(u) => to_lowercase(u.as_str()),
                    None => to_lowercase(""),
                };
                let ghost before = token_views(tokens@);
                proof {
                    assert(""@ =~= Seq::<char>::empty()) by {
                        reveal_strlit("");
                    }
                }
                tokens.push((value, unit));
                assert(token_views(tokens@) =~= before.push((value@, unit@)));
                i += 1;
                assert(token_views(tokens@) =~= lowered_tokens(cv).take(i as int));
            }
            assert(lowered_tokens(cv).take(caps.len() as int) =~= lowered_tokens(cv));
            seconds_from_tokens(&tokens)
        },
    }
}

/// What the file system says of a path.
#[derive(Debug, Clone, Copy, PartialEq, Eq, Structural)]
pub struct PathFact {
    pub exists: bool,
    pub is_dir: bool,
}

/// What the file system says of the paths that the command line names.
#[derive(Debug, Clone)]
pub struct CliFacts {
    /// One fact for each library path, in order. A path without a fact
    /// counts as missing.
    pub library_paths: Vec<PathFact>,
    pub docsettings: PathFact,
    pub hashdocsettings: PathFact,
    pub statistics_db_exists: bool,
}

/// The rule that a command line breaks.
#[derive(Debug, Clone, Copy, PartialEq, Eq, Structural)]
pub enum CliError {
    /// Neither a library nor a statistics store is given.
    NothingToShow,
    /// The library path at this position does not exist.
    LibraryPathMissing(usize),
    /// The library path at this position is not a directory.
    LibraryPathNotDirectory(usize),
    /// Unread books are asked for without a library.
    IncludeUnreadWithoutLibrary,
    /// Both kinds of separate metadata location are given.
    MetadataLocationsExclude,
    DocsettingsWithoutLibrary,
    HashdocsettingsWithoutLibrary,
    DocsettingsMissing,
    DocsettingsNotDirectory,
    HashdocsettingsMissing,
    HashdocsettingsNotDirectory,
    /// A port is chosen although the site is written out, not served.
    PortWithOutput,
    StatisticsMissing,
    InvalidHeatmapScale(TimeParseError),
    InvalidMinTime(TimeParseError),
}

/// The fact known of the library path at a position.
pub open spec fn library_fact(facts: Seq<PathFact>, i: int) -> PathFact {
    if 0 <= i < facts.len() {
        facts[i]
    } else {
        PathFact { exists: false, is_dir: false }
    }
}

/// The first fault among the first `n` library paths.
pub open spec fn library_fault(facts: Seq<PathFact>, n: int) -> Option<CliError>
    decreases n,
{
    if n <= 0 {
        None
    } else {
        match library_fault(facts, n - 1) {
            Some(e) => Some(e),
            None => if !library_fact(facts, n - 1).exists {
                Some(CliError::LibraryPathMissing((n - 1) as usize))
            } else if !library_fact(facts, n - 1).is_dir {
                Some(CliError::LibraryPathNotDirectory((n - 1) as usize))
            } else {
                None
            },
        }
    }
}

impl Cli {
    /// The first rule that the command line breaks, the rules taken in their
    /// order; `heatmap` and `min_time` are what the two lengths of time read
    /// as.
    pub open spec fn fault(
        &self,
        allow_empty: bool,
        facts: CliFacts,
        heatmap: Result<Option<u32>, TimeParseError>,
        min_time: Option<Result<Option<u32>, TimeParseError>>,
    ) -> Option<CliError> {
        let no_library = self.library_path@.len() == 0;
        if !allow_empty && no_library && self.statistics_db.is_none() {
            Some(CliError::NothingToShow)
        } else if library_fault(facts.library_paths@, self.library_path@.len() as int).is_some() {
            library_fault(facts.library_paths@, self.library_path@.len() as int)
        } else if self.include_unread && no_library {
            Some(CliError::IncludeUnreadWithoutLibrary)
        } else if self.docsettings_path.is_some() && self.hashdocsettings_path.is_some() {
            Some(CliError::MetadataLocationsExclude)
        } else if self.docsettings_path.is_some() && no_library {
            Some(CliError::DocsettingsWithoutLibrary)
        } else if self.hashdocsettings_path.is_some() && no_library {
            Some(CliError::HashdocsettingsWithoutLibrary)
        } else if self.docsettings_path.is_some() && !facts.docsettings.exists {
            Some(CliError::DocsettingsMissing)
        } else if self.docsettings_path.is_some() && !facts.docsettings.is_dir {
            Some(CliError::DocsettingsNotDirectory)
        } else if self.hashdocsettings_path.is_some() && !facts.hashdocsettings.exists {
            Some(CliError::HashdocsettingsMissing)
        } else if self.hashdocsettings_path.is_some() && !facts.hashdocsettings.is_dir {
            Some(CliError::HashdocsettingsNotDirectory)
        } else if self.output.is_some() && self.port != 3000 {
            Some(CliError::PortWithOutput)
        } else if self.statistics_db.is_some() && !facts.statistics_db_exists {
            Some(CliError::StatisticsMissing)
        } else if heatmap is Err {
            Some(CliError::InvalidHeatmapScale(heatmap->Err_0))
        } else if self.min_time_per_day.is_some() && min_time matches Some(Err(e)) {
            Some(CliError::InvalidMinTime(min_time->Some_0->Err_0))
        } else {
            None
        }
    }

    /// Checks the command line against the rules, given what its two lengths
    /// of time read as.
    pub fn validate_with(
        &self,
        allow_empty: bool,
        facts: &CliFacts,
        heatmap: &Result<Option<u32>, TimeParseError>,
        min_time: &Option<Result<Option<u32>, TimeParseError>>,
    ) -> (r: Result<(), CliError>)
        ensures
            match self.fault(allow_empty, *facts, *heatmap, *min_time) {
                Some(e) => r == Err::<(), CliError>(e),
                None => r.is_ok(),
            },
    {
        let no_library = self.library_path.len() == 0;
        if !allow_empty && no_library && self.statistics_db.is_none() {
            return Err(CliError::NothingToShow);
        }
        let mut i: usize = 0;
        while i < self.library_path.len()
            invariant
                i <= self.library_path.len(),
                library_fault(facts.library_paths@, i as int).is_none(),
            decreases self.library_path.len() - i,
        {
            let fact = if i < facts.library_paths.len() {
                facts.library_paths[i]
            } else {
                PathFact { exists: false, is_dir: false }
            };
            if !fact.exists {
                proof {
                    lemma_fault_stays(facts.library_paths@, i + 1, self.library_path@.len() as int);
                }
                return Err(CliError::LibraryPathMissing(i));
            }
            if !fact.is_dir {
                proof {
                    lemma_fault_stays(facts.library_paths@, i + 1, self.library_path@.len() as int);
                }
                return Err(CliError::LibraryPathNotDirectory(i));
            }
            i += 1;
        }
        if self.include_unread && no_library {
            return Err(CliError::IncludeUnreadWithoutLibrary);
        }
        if self.docsettings_path.is_some() && self.hashdocsettings_path.is_some() {
            return Err(CliError::MetadataLocationsExclude);
        }
        if self.docsettings_path.is_some() && no_library {
            return Err(CliError::DocsettingsWithoutLibrary);
        }
        if self.hashdocsettings_path.is_some() && no_library {
            return Err(CliError::HashdocsettingsWithoutLibrary);
        }
        if self.docsettings_path.is_some() {
            if !facts.docsettings.exists {
                return Err(CliError::DocsettingsMissing);
            }
            if !facts.docsettings.is_dir {
                return Err(CliError::DocsettingsNotDirectory);
            }
        }
        if self.hashdocsettings_path.is_some() {
            if !facts.hashdocsettings.exists {
                return Err(CliError::HashdocsettingsMissing);
            }
            if !facts.hashdocsettings.is_dir {
                return Err(CliError::HashdocsettingsNotDirectory);
            }
        }
        if self.output.is_some() && self.port != DEFAULT_PORT {
            return Err(CliError::PortWithOutput);
        }
        if self.statistics_db.is_some() && !facts.statistics_db_exists {
            return Err(CliError::StatisticsMissing);
        }
        if let Err(e) = heatmap {
            return Err(CliError::InvalidHeatmapScale(*e));
        }
        if self.min_time_per_day.is_some() {
            if let Some(Err(e)) = min_time {
                return Err(CliError::InvalidMinTime(*e));
            }
        }
        Ok(())
    }

    /// Checks the command line against the rules that hold in every mode.
    /// With `allow_empty` neither a library nor a statistics store is asked
    /// for. `facts` says what the file system holds at the paths given.
    pub fn validate(&self, allow_empty: bool, facts: &CliFacts) -> (r: Result<(), CliError>)
        ensures
            match self.fault(
                allow_empty,
                *facts,
                time_of(self.heatmap_scale_max@),
                match self.min_time_per_day {
                    Some(t) => Some(time_of(t@)),
                    None => None,
                },
            ) {
                Some(e) => r == Err::<(), CliError>(e),
                None => r.is_ok(),
            },
    {
        let heatmap = parse_time_to_seconds(self.heatmap_scale_max.as_str());
        let min_time = match &self.min_time_per_day {
            Some(t) => Some(parse_time_to_seconds(t.as_str())),
            None => None,
        };
        self.validate_with(allow_empty, facts, &heatmap, &min_time)
    }
}

/// A fault among the first library paths is the fault of them all.
proof fn lemma_fault_stays(facts: Seq<PathFact>, k: int, n: int)
    requires
        0 <= k <= n,
        library_fault(facts, k).is_some(),
    ensures
        library_fault(facts, n) == library_fault(facts, k),
    decreases n - k,
{
    if k < n {
        lemma_fault_stays(facts, k, n - 1);
    }
}

} // verus!
