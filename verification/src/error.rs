//! The crate-wide error type.

use vstd::prelude::*;

use crate::text::{decimal, push_decimal, push_str};

verus! {

/// Anything this crate can fail with.
#[derive(Debug, Clone, PartialEq, Eq)]
pub enum Error {
    /// Reading or writing a file failed.
    Io {
        /// The file.
        path: String,
        /// What the system said.
        message: String,
    },
    /// A TOML file did not parse.
    Toml {
        /// The file.
        path: String,
        /// The parser's message, which names the line.
        message: String,
    },
    /// A `.syx` file did not hold exactly one program.
    ProgramCount {
        /// The file.
        path: String,
        /// How many it held.
        found: usize,
    },
    /// The underlying protocol library refused something.
    Midi(String),
    /// An icon row was not seven of `#` or `.`.
    Icon(String),
    /// A version string was not `yy.release.patch`.
    Version(String),
    /// A fingerprint string was not 64 hex digits.
    Fingerprint(String),
    /// An index carries a schema this crate does not read.
    Schema {
        /// What the index says.
        found: u32,
        /// What this crate reads.
        supported: u32,
    },
    /// An MP3 file could not be read as one.
    Mp3 {
        /// The file.
        path: String,
        /// What was wrong.
        message: String,
    },
    /// Validation found errors. The findings carry the detail.
    Invalid(usize),
    /// A network operation failed.
    Fetch {
        /// What was requested.
        url: String,
        /// What went wrong.
        message: String,
    },
}

/// The message an error prints.
pub open spec fn error_text(e: Error) -> Seq<char> {
    match e {
        Error::Io { path, message } => path@ + ": "@ + message@,
        Error::Toml { path, message } => path@ + ": "@ + message@,
        Error::ProgramCount { path, found } => path@ + ": expected one program dump, found "@
            + decimal(found as nat),
        Error::Midi(message) => message@,
        Error::Icon(message) => "icon: "@ + message@,
        Error::Version(message) => "version: "@ + message@,
        Error::Fingerprint(message) => "fingerprint: "@ + message@,
        Error::Schema { found, supported } => "index schema "@ + decimal(found as nat)
            + " is newer than the "@ + decimal(supported as nat) + " this crate reads"@,
        Error::Mp3 { path, message } => path@ + ": "@ + message@,
        Error::Invalid(count) => decimal(count as nat) + " validation error(s)"@,
        Error::Fetch { url, message } => "fetch "@ + url@ + ": "@ + message@,
    }
}

impl Error {
    /// The message, as the error prints it.
    pub fn to_string(&self) -> (s: String)
        ensures
            s@ == error_text(*self),
    {
        let mut s = String::new();
        match self {
            Error::Io { path, message } | Error::Toml { path, message } | Error::Mp3 {
                path,
                message,
            } => {
                push_str(&mut s, path.as_str());
                push_str(&mut s, ": ");
                push_str(&mut s, message.as_str());
            },
            Error::ProgramCount { path, found } => {
                push_str(&mut s, path.as_str());
                push_str(&mut s, ": expected one program dump, found ");
                push_decimal(&mut s, *found as u64);
            },
            Error::Midi(message) => {
                push_str(&mut s, message.as_str());
            },
            Error::Icon(message) => {
                push_str(&mut s, "icon: ");
                push_str(&mut s, message.as_str());
            },
            Error::Version(message) => {
                push_str(&mut s, "version: ");
                push_str(&mut s, message.as_str());
            },
            Error::Fingerprint(message) => {
                push_str(&mut s, "fingerprint: ");
                push_str(&mut s, message.as_str());
            },
            Error::Schema { found, supported } => {
                push_str(&mut s, "index schema ");
                push_decimal(&mut s, *found as u64);
                push_str(&mut s, " is newer than the ");
                push_decimal(&mut s, *supported as u64);
                push_str(&mut s, " this crate reads");
            },
            Error::Invalid(count) => {
                push_decimal(&mut s, *count as u64);
                push_str(&mut s, " validation error(s)");
            },
            Error::Fetch { url, message } => {
                push_str(&mut s, "fetch ");
                push_str(&mut s, url.as_str());
                push_str(&mut s, ": ");
                push_str(&mut s, message.as_str());
            },
        }
        s
    }
}

} // verus!
