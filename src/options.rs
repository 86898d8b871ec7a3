//! Option values of the command line: duplicate-key modes, text encodings,
//! unknown-key strategies and save formats.

use vstd::prelude::*;

use crate::materialize::Encoding;

verus! {

/// What `str::to_lowercase` makes of a text.
pub uninterp spec fn lower_of(s: Seq<char>) -> Seq<char>;

/// Relies on std's `str::to_lowercase`: the result depends on the characters
/// alone.
#[verifier::external_body]
pub(crate) fn lowercase(s: &str) -> (r: String)
    ensures
        r@ == lower_of(s@),
{
    s.to_lowercase()
}

/// An option value that no rule accepts.
#[derive(Clone, Copy, Debug, PartialEq, Eq)]
pub enum ParseError {
    DuplicateKeys,
    Encoding,
    UnknownKeyStrategy,
    MeltFormat,
    Frequency,
    GameType,
    LogLevel,
}

impl ParseError {
    /// The error as text.
    pub fn message(&self) -> (r: &'static str)
        ensures
            r@ == match *self {
                ParseError::DuplicateKeys => "Unrecognized duplicate key option"@,
                ParseError::Encoding => "Unrecognized encoding option"@,
                ParseError::UnknownKeyStrategy => "Unrecognized unknown key strategy"@,
                ParseError::MeltFormat => "Only eu4, ck3, vic3, hoi4, and imperator files supported"@,
                ParseError::Frequency => "Unrecognized snapshot frequency. Use 'daily', 'monthly', 'quarterly', 'yearly', or 'decade'"@,
                ParseError::GameType => "Only eu4, eu5, ck3, vic3, hoi4, and imperator files supported"@,
                ParseError::LogLevel => "unrecognized log level"@,
            },
    {
        match self {
            ParseError::DuplicateKeys => "Unrecognized duplicate key option",
            ParseError::Encoding => "Unrecognized encoding option",
            ParseError::UnknownKeyStrategy => "Unrecognized unknown key strategy",
            ParseError::MeltFormat => "Only eu4, ck3, vic3, hoi4, and imperator files supported",
            ParseError::Frequency => "Unrecognized snapshot frequency. Use 'daily', 'monthly', 'quarterly', 'yearly', or 'decade'",
            ParseError::GameType => "Only eu4, eu5, ck3, vic3, hoi4, and imperator files supported",
            ParseError::LogLevel => "unrecognized log level",
        }
    }
}

pub(crate) fn same_text(a: &String, b: &str) -> (r: bool)
    ensures
        r == (a@ == b@),
{
    let b = String::from_str(b);
    *a == b
}

pub open spec fn duplicate_keys_named(l: Seq<char>) -> Option<jomini::json::DuplicateKeyMode> {
    if l == "preserve"@ {
        Some(jomini::json::DuplicateKeyMode::Preserve)
    } else if l == "group"@ {
        Some(jomini::json::DuplicateKeyMode::Group)
    } else if l == "key-value-pairs"@ {
        Some(jomini::json::DuplicateKeyMode::KeyValuePairs)
    } else {
        None
    }
}

/// `preserve`, `group` or `key-value-pairs`, in any case.
pub fn parse_duplicate_keys(s: &str) -> (r: Result<jomini::json::DuplicateKeyMode, ParseError>)
    ensures
        r == match duplicate_keys_named(lower_of(s@)) {
            Some(m) => Ok(m),
            None => Err(ParseError::DuplicateKeys),
        },
{
    let l = lowercase(s);
    if same_text(&l, "preserve") {
        Ok(jomini::json::DuplicateKeyMode::Preserve)
    } else if same_text(&l, "group") {
        Ok(jomini::json::DuplicateKeyMode::Group)
    } else if same_text(&l, "key-value-pairs") {
        Ok(jomini::json::DuplicateKeyMode::KeyValuePairs)
    } else {
        Err(ParseError::DuplicateKeys)
    }
}

pub open spec fn encoding_named(l: Seq<char>) -> Option<Encoding> {
    if l == "utf-8"@ {
        Some(Encoding::Utf8)
    } else if l == "windows-1252"@ {
        Some(Encoding::Windows1252)
    } else {
        None
    }
}

/// `utf-8` or `windows-1252`, in any case.
pub fn parse_encoding(s: &str) -> (r: Result<Encoding, ParseError>)
    ensures
        r == match encoding_named(lower_of(s@)) {
            Some(e) => Ok(e),
            None => Err(ParseError::Encoding),
        },
{
    let l = lowercase(s);
    if same_text(&l, "utf-8") {
        Ok(Encoding::Utf8)
    } else if same_text(&l, "windows-1252") {
        Ok(Encoding::Windows1252)
    } else {
        Err(ParseError::Encoding)
    }
}

/// What the melter does with a binary key that it cannot resolve.
#[derive(Clone, Copy, Debug, PartialEq, Eq)]
pub enum FailedResolveStrategy {
    Ignore,
    Stringify,
    Error,
}

pub open spec fn strategy_named(s: Seq<char>) -> Option<FailedResolveStrategy> {
    if s == "ignore"@ {
        Some(FailedResolveStrategy::Ignore)
    } else if s == "stringify"@ {
        Some(FailedResolveStrategy::Stringify)
    } else if s == "error"@ {
        Some(FailedResolveStrategy::Error)
    } else {
        None
    }
}

/// `ignore`, `stringify` or `error`, exactly.
pub fn parse_failed_resolve(s: &str) -> (r: Result<FailedResolveStrategy, ParseError>)
    ensures
        r == match strategy_named(s@) {
            Some(k) => Ok(k),
            None => Err(ParseError::UnknownKeyStrategy),
        },
{
    let t = String::from_str(s);
    if same_text(&t, "ignore") {
        Ok(FailedResolveStrategy::Ignore)
    } else if same_text(&t, "stringify") {
        Ok(FailedResolveStrategy::Stringify)
    } else if same_text(&t, "error") {
        Ok(FailedResolveStrategy::Error)
    } else {
        Err(ParseError::UnknownKeyStrategy)
    }
}

/// The save formats that can be melted.
#[derive(Clone, Copy, Debug, PartialEq, Eq)]
pub enum MelterKind {
    Eu4,
    Ck3,
    Imperator,
    Vic3,
    Hoi4,
}

pub open spec fn melter_named(s: Seq<char>) -> Option<MelterKind> {
    if s == "eu4"@ {
        Some(MelterKind::Eu4)
    } else if s == "ck3"@ {
        Some(MelterKind::Ck3)
    } else if s == "rome"@ {
        Some(MelterKind::Imperator)
    } else if s == "hoi4"@ {
        Some(MelterKind::Hoi4)
    } else if s == "v3"@ {
        Some(MelterKind::Vic3)
    } else {
        None
    }
}

impl MelterKind {
    /// `eu4`, `ck3`, `rome`, `hoi4` or `v3`, exactly.
    pub fn from_str(s: &str) -> (r: Result<MelterKind, ParseError>)
        ensures
            r == match melter_named(s@) {
                Some(k) => Ok(k),
                None => Err(ParseError::MeltFormat),
            },
    {
        let t = String::from_str(s);
        if same_text(&t, "eu4") {
            Ok(MelterKind::Eu4)
        } else if same_text(&t, "ck3") {
            Ok(MelterKind::Ck3)
        } else if same_text(&t, "rome") {
            Ok(MelterKind::Imperator)
        } else if same_text(&t, "hoi4") {
            Ok(MelterKind::Hoi4)
        } else if same_text(&t, "v3") {
            Ok(MelterKind::Vic3)
        } else {
            Err(ParseError::MeltFormat)
        }
    }
}

/// How much the logger lets through.
#[derive(Clone, Copy, Debug, PartialEq, Eq)]
pub enum LogLevel {
    Warn,
    Info,
    Debug,
    Trace,
}

/// The log level of a verbosity count: 0 to 3.
pub fn log_level(verbosity: u8) -> (r: Result<LogLevel, ParseError>)
    ensures
        r == if verbosity == 0 {
            Ok(LogLevel::Warn)
        } else if verbosity == 1 {
            Ok(LogLevel::Info)
        } else if verbosity == 2 {
            Ok(LogLevel::Debug)
        } else if verbosity == 3 {
            Ok(LogLevel::Trace)
        } else {
            Err(ParseError::LogLevel)
        },
{
    match verbosity {
        0 => Ok(LogLevel::Warn),
        1 => Ok(LogLevel::Info),
        2 => Ok(LogLevel::Debug),
        3 => Ok(LogLevel::Trace),
        _ => Err(ParseError::LogLevel),
    }
}

} // verus!
