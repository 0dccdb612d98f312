//! The strings that a configuration is built from, and how they are read.

use vstd::prelude::*;
use regex::Regex;

verus! {

/// Errors produced when loading a configuration.
#[derive(Clone, Copy, Debug, PartialEq, Eq, Structural)]
pub enum Error {
    InvalidEnvVar,
}

/// Why the authority of a URL is not a host and a port.
#[derive(Clone, Copy, Debug, PartialEq, Eq, Structural)]
pub enum HostAndPortError {
    /// The host is not valid.
    InvalidHost,
    /// The port is missing.
    MissingPort,
}

#[derive(Clone, Copy, Debug, PartialEq, Eq, Structural)]
pub enum UrlError {
    /// The URL is syntactically invalid according to general URL parsing
    /// rules.
    SyntaxError,
    /// The URL has a scheme that isn't supported.
    UnsupportedScheme,
    /// The URL is missing the authority part.
    MissingAuthority,
    /// The authority part of the URL is not a host and a port.
    AuthorityError(HostAndPortError),
    /// The URL contains a path component that isn't "/", which isn't
    /// allowed.
    PathNotAllowed,
}

#[derive(Clone, Copy, Debug, PartialEq, Eq, Structural)]
pub enum ParseError {
    EnvironmentUnsupported,
    NotADuration,
    NotANumber,
    HostIsNotAnIpAddress,
    NotUnicode,
    UrlError(UrlError),
}

/// A span of time: whole seconds and the nanoseconds of the second begun.
#[derive(Clone, Copy, Debug, PartialEq, Eq, Structural)]
pub struct Duration {
    secs: u64,
    nanos: u32,
}

impl Duration {
    /// The span in milliseconds.
    pub closed spec fn millis(self) -> int {
        self.secs * 1000 + self.nanos / 1_000_000
    }

    /// Whether the span is a whole number of milliseconds.
    pub closed spec fn whole_millis(self) -> bool {
        self.nanos < 1_000_000_000 && self.nanos % 1_000_000 == 0
    }

    pub fn from_secs(secs: u64) -> (d: Duration)
        ensures
            d.whole_millis(),
            d.millis() == secs * 1000,
            d == millis_span(secs * 1000),
    {
        Duration { secs, nanos: 0 }
    }

    pub fn from_millis(millis: u64) -> (d: Duration)
        ensures
            d.whole_millis(),
            d.millis() == millis,
            d == millis_span(millis as int),
    {
        let rest: u32 = (millis % 1000) as u32;
        Duration { secs: millis / 1000, nanos: rest * 1_000_000 }
    }

    pub fn as_secs(&self) -> (secs: u64)
        ensures
            self.whole_millis() ==> secs == self.millis() / 1000,
    {
        self.secs
    }

    pub fn subsec_nanos(&self) -> (nanos: u32)
        ensures
            self.whole_millis() ==> nanos == (self.millis() % 1000) * 1_000_000,
    {
        self.nanos
    }
}

/// The span of so many milliseconds.
pub closed spec fn millis_span(millis: int) -> Duration {
    Duration { secs: (millis / 1000) as u64, nanos: ((millis % 1000) * 1_000_000) as u32 }
}

/// The span of so many milliseconds is a whole number of milliseconds, and
/// has that many.
pub proof fn millis_span_reads(millis: int)
    requires
        0 <= millis <= u64::MAX * 1000 + 999,
    ensures
        millis_span(millis).whole_millis(),
        millis_span(millis).millis() == millis,
{
}

/// Spans of different lengths differ.
pub proof fn millis_span_is_injective(a: int, b: int)
    requires
        0 <= a <= u64::MAX * 1000,
        0 <= b <= u64::MAX * 1000,
        millis_span(a) == millis_span(b),
    ensures
        a == b,
{
}

/// The strings used to build a configuration.
pub trait Strings {
    /// The value that is set for a key; nothing where none is set.
    spec fn lookup(&self, key: Seq<char>) -> Result<Option<Seq<char>>, Error>;

    /// Retrieves the value for the key `key`.
    fn get(&self, key: &str) -> (value: Result<Option<String>, Error>)
        ensures
            value_view(value) == self.lookup(key@),
    ;
}

/// The view of what a lookup gave.
pub open spec fn value_view(value: Result<Option<String>, Error>) -> Result<
    Option<Seq<char>>,
    Error,
> {
    match value {
        Ok(Some(s)) => Ok(Some(s@)),
        Ok(None) => Ok(None),
        Err(e) => Err(e),
    }
}

/// The strings of the process's environment. Reading them is left to the
/// program around the library.
#[derive(Clone, Copy, Debug)]
pub struct Env;

/// Strings that a test sets by hand.
#[derive(Debug)]
pub struct TestEnv {
    values: Vec<(String, String)>,
}

/// The map that a list of settings makes; a later setting of a key
/// replaces an earlier one.
pub open spec fn settings(values: Seq<(String, String)>) -> Map<Seq<char>, Seq<char>>
    decreases values.len(),
{
    if values.len() == 0 {
        Map::empty()
    } else {
        settings(values.drop_last()).insert(values.last().0@, values.last().1@)
    }
}

impl View for TestEnv {
    type V = Map<Seq<char>, Seq<char>>;

    closed spec fn view(&self) -> Map<Seq<char>, Seq<char>> {
        settings(self.values@)
    }
}

impl TestEnv {
    pub fn new() -> (env: TestEnv)
        ensures
            env@ == Map::<Seq<char>, Seq<char>>::empty(),
    {
        TestEnv { values: Vec::new() }
    }

    /// Sets `key` to `value`, in place of any value that it had.
    pub fn put(&mut self, key: &'static str, value: String)
        ensures
            final(self)@ == old(self)@.insert(key@, value@),
    {
        let ghost before = self.values@;
        self.values.push((key.to_owned(), value));
        proof {
            assert(self.values@.drop_last() =~= before);
        }
    }
}

impl Strings for TestEnv {
    open spec fn lookup(&self, key: Seq<char>) -> Result<Option<Seq<char>>, Error> {
        if self@.dom().contains(key) {
            Ok(Some(self@[key]))
        } else {
            Ok(None)
        }
    }

    fn get(&self, key: &str) -> (value: Result<Option<String>, Error>) {
        let wanted = key.to_owned();
        let mut i: usize = self.values.len();
        proof {
            assert(self.values@.take(i as int) == self.values@);
        }
        while i > 0
            invariant
                i <= self.values.len(),
                wanted@ == key@,
                self@.dom().contains(key@) == settings(self.values@.take(i as int)).dom().contains(
                    key@,
                ),
                self@.dom().contains(key@) ==> self@[key@] == settings(
                    self.values@.take(i as int),
                )[key@],
            decreases i,
        {
            proof {
                assert(self.values@.take(i as int).drop_last() == self.values@.take(i - 1));
                assert(self.values@.take(i as int).last() == self.values@[i - 1]);
            }
            i -= 1;
            if self.values[i].0 == wanted {
                return Ok(Some(self.values[i].1.clone()));
            }
        }
        Ok(None)
    }
}

/// Whether every character is one of the digits `0` to `9`.
pub open spec fn all_digits(text: Seq<char>) -> bool {
    forall|i: int| 0 <= i < text.len() ==> 48 <= (#[trigger] text[i]) as u32 <= 57
}

/// The number that a run of digits reads as in decimal.
pub open spec fn decimal_value(digits: Seq<char>) -> nat
    decreases digits.len(),
{
    if digits.len() == 0 {
        0
    } else {
        (decimal_value(digits.drop_last()) * 10 + (digits.last() as u32 - 48)) as nat
    }
}

/// What the text reads as: an optional `+` and then at least one digit,
/// nothing else, give the number that the digits read as in decimal, where
/// it fits.
pub open spec fn parsed_u64(text: Seq<char>) -> Option<u64> {
    let digits = if text.len() > 0 && text[0] == '+' {
        text.skip(1)
    } else {
        text
    };
    if digits.len() > 0 && all_digits(digits) && decimal_value(digits) <= u64::MAX {
        Some(decimal_value(digits) as u64)
    } else {
        None
    }
}

/// `str::parse::<u64>`: the number that the text reads as, or nothing
/// where the text is no number or the number does not fit.
#[verifier::external_body]
fn str_parse_u64(text: &str) -> (number: Option<u64>)
    ensures
        number == parsed_u64(text@),
{
    text.parse::<u64>().ok()
}

/// What the groups of the first match of a pattern in a text hold, the
/// group for the whole match first: the text that each took part with, or
/// nothing for a group that took no part. Nothing at all where the text
/// does not match, or the pattern is no pattern.
pub uninterp spec fn captures_of(pattern: Seq<char>, text: Seq<char>) -> Option<
    Seq<Option<Seq<char>>>,
>;

/// The groups of a match, each by its view.
pub open spec fn group_views(groups: Option<Vec<Option<String>>>) -> Option<
    Seq<Option<Seq<char>>>,
> {
    match groups {
        Some(found) => Some(
            found@.map_values(
                |g: Option<String>|
                    match g {
                        Some(s) => Some(s@),
                        None => None,
                    },
            ),
        ),
        None => None,
    }
}

/// `Regex::new` and `Regex::captures`: the groups of the first match of
/// the pattern in the text.
#[verifier::external_body]
fn regex_captures(pattern: &str, text: &str) -> (groups: Option<Vec<Option<String>>>)
    ensures
        group_views(groups) == captures_of(pattern@, text@),
{
    let re = Regex::new(pattern).ok()?;
    let caps = re.captures(text)?;
    let mut groups = Vec::new();
    for group in caps.iter() {
        groups.push(group.map(|m| m.as_str().to_owned()));
    }
    Some(groups)
}

/// The pattern of a duration: a run of digits and, directly behind it, a
/// unit, with blanks allowed before and after.
pub open spec fn duration_pattern() -> Seq<char> {
    r"^\s*(\d+)(ms|s|m|h|d)?\s*$"@
}

/// The span of so many units of `factor` seconds each, where the seconds
/// fit.
pub open spec fn secs_span(magnitude: u64, factor: int) -> Result<Duration, ParseError> {
    if magnitude * factor <= u64::MAX {
        Ok(millis_span(magnitude * factor * 1000))
    } else {
        Err(ParseError::NotANumber)
    }
}

/// The duration that a magnitude and a unit stand for. Without a unit only
/// zero is a duration. A magnitude whose seconds do not fit is no number.
pub open spec fn duration_of(magnitude: u64, unit: Option<Seq<char>>) -> Result<
    Duration,
    ParseError,
> {
    match unit {
        None => if magnitude == 0 {
            Ok(millis_span(0))
        } else {
            Err(ParseError::NotADuration)
        },
        Some(u) => if u == "ms"@ {
            Ok(millis_span(magnitude as int))
        } else if u == "s"@ {
            secs_span(magnitude, 1)
        } else if u == "m"@ {
            secs_span(magnitude, 60)
        } else if u == "h"@ {
            secs_span(magnitude, 3600)
        } else if u == "d"@ {
            secs_span(magnitude, 86400)
        } else {
            Err(ParseError::NotADuration)
        },
    }
}

/// What the groups of a match of the duration pattern stand for.
pub open spec fn duration_of_groups(groups: Option<Seq<Option<Seq<char>>>>) -> Result<
    Duration,
    ParseError,
> {
    match groups {
        Some(found) => if found.len() == 3 && found[1] is Some {
            match parsed_u64(found[1]->0) {
                Some(magnitude) => duration_of(magnitude, found[2]),
                None => Err(ParseError::NotANumber),
            }
        } else {
            Err(ParseError::NotADuration)
        },
        None => Err(ParseError::NotADuration),
    }
}

/// Reads a number.
pub fn parse_number(text: &str) -> (number: Result<u64, ParseError>)
    ensures
        number == match parsed_u64(text@) {
            Some(n) => Ok::<u64, ParseError>(n),
            None => Err(ParseError::NotANumber),
        },
{
    match str_parse_u64(text) {
        Some(n) => Ok(n),
        None => Err(ParseError::NotANumber),
    }
}

fn secs_duration(magnitude: u64, factor: u64) -> (d: Result<Duration, ParseError>)
    requires
        0 < factor <= 86400,
    ensures
        d == secs_span(magnitude, factor as int),
{
    match magnitude.checked_mul(factor) {
        Some(secs) => Ok(Duration::from_secs(secs)),
        None => Err(ParseError::NotANumber),
    }
}

/// The duration that a magnitude and a unit stand for.
pub fn duration_from_parts(magnitude: u64, unit: Option<&String>) -> (d: Result<
    Duration,
    ParseError,
>)
    ensures
        d == duration_of(
            magnitude,
            match unit {
                Some(u) => Some(u@),
                None => None,
            },
        ),
{
    match unit {
        None => {
            if magnitude == 0 {
                Ok(Duration::from_secs(0))
            } else {
                Err(ParseError::NotADuration)
            }
        },
        Some(u) => {
            if *u == "ms".to_owned() {
                Ok(Duration::from_millis(magnitude))
            } else if *u == "s".to_owned() {
                secs_duration(magnitude, 1)
            } else if *u == "m".to_owned() {
                secs_duration(magnitude, 60)
            } else if *u == "h".to_owned() {
                secs_duration(magnitude, 3600)
            } else if *u == "d".to_owned() {
                secs_duration(magnitude, 86400)
            } else {
                Err(ParseError::NotADuration)
            }
        },
    }
}

/// What the groups of a match of the duration pattern stand for.
pub fn duration_from_captures(groups: &Option<Vec<Option<String>>>) -> (d: Result<
    Duration,
    ParseError,
>)
    ensures
        d == duration_of_groups(group_views(*groups)),
{
    match groups {
        Some(found) => {
            if found.len() != 3 {
                return Err(ParseError::NotADuration);
            }
            match &found[1] {
                Some(digits) => match parse_number(digits.as_str()) {
                    Ok(magnitude) => duration_from_parts(magnitude, found[2].as_ref()),
                    Err(e) => Err(e),
                },
                None => Err(ParseError::NotADuration),
            }
        },
        None => Err(ParseError::NotADuration),
    }
}

/// Reads a duration: digits and a unit (`ms`, `s`, `m`, `h` or `d`), with
/// blanks allowed around them. Zero needs no unit.
pub fn parse_duration(text: &str) -> (d: Result<Duration, ParseError>)
    ensures
        d == duration_of_groups(captures_of(duration_pattern(), text@)),
{
    let groups = regex_captures(r"^\s*(\d+)(ms|s|m|h|d)?\s*$", text);
    duration_from_captures(&groups)
}

} // verus!
