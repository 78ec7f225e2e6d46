//! Which transport to build: chosen once, at construction, so that a process
//! cannot drift between modes mid-run.

use vstd::prelude::*;
use vstd::string::*;
use crate::error::{Error, SpecError};
use crate::text::{debug_form, debug_quoted};

verus! {

#[derive(Debug, Clone, Copy, PartialEq, Eq, Structural)]
pub enum Mode {
    Local,
    Remote,
}

/// What looking up the mode variable gave.
pub enum EnvValue {
    /// The variable is not set.
    NotPresent,
    /// The variable is set but cannot be read; the text says why.
    Unreadable(String),
    /// The variable's value.
    Present(String),
}

pub enum SpecEnvValue {
    NotPresent,
    Unreadable(Seq<char>),
    Present(Seq<char>),
}

impl View for EnvValue {
    type V = SpecEnvValue;

    open spec fn view(&self) -> SpecEnvValue {
        match self {
            EnvValue::NotPresent => SpecEnvValue::NotPresent,
            EnvValue::Unreadable(s) => SpecEnvValue::Unreadable(s@),
            EnvValue::Present(s) => SpecEnvValue::Present(s@),
        }
    }
}

/* Text handling */

/// Unicode's `White_Space` property, which `str::trim` strips.
pub open spec fn is_white_space(c: char) -> bool {
    let n = c as u32;
    ||| 0x9 <= n <= 0xd
    ||| n == 0x20
    ||| n == 0x85
    ||| n == 0xa0
    ||| n == 0x1680
    ||| 0x2000 <= n <= 0x200a
    ||| n == 0x2028
    ||| n == 0x2029
    ||| n == 0x202f
    ||| n == 0x205f
    ||| n == 0x3000
}

/// `s` without its leading white space.
pub open spec fn trim_start_text(s: Seq<char>) -> Seq<char>
    decreases s.len(),
{
    if s.len() > 0 && is_white_space(s[0]) {
        trim_start_text(s.drop_first())
    } else {
        s
    }
}

/// `s` without its trailing white space.
pub open spec fn trim_end_text(s: Seq<char>) -> Seq<char>
    decreases s.len(),
{
    if s.len() > 0 && is_white_space(s.last()) {
        trim_end_text(s.drop_last())
    } else {
        s
    }
}

/// `s` without leading and trailing white space.
pub open spec fn trimmed_text(s: Seq<char>) -> Seq<char> {
    trim_end_text(trim_start_text(s))
}

/// `c` with `A` to `Z` mapped to `a` to `z`.
pub open spec fn ascii_lower_char(c: char) -> char {
    if 'A' <= c <= 'Z' {
        ((c as u32) + 32) as char
    } else {
        c
    }
}

/// `s` with `A` to `Z` mapped to `a` to `z`, every other character kept.
pub open spec fn ascii_lower_text(s: Seq<char>) -> Seq<char> {
    s.map_values(|c: char| ascii_lower_char(c))
}

/// `str::trim`: its documentation defines white space by Unicode's
/// `White_Space` property, and the result is the slice between the first and
/// the last character outside it.
#[verifier::external_body]
fn trim_str<'a>(s: &'a str) -> (r: &'a str)
    ensures
        r@ == trimmed_text(s@),
{
    s.trim()
}

/// `str::to_ascii_lowercase`: maps `A` to `Z` to `a` to `z` and keeps every
/// other character, as its documentation says.
#[verifier::external_body]
fn ascii_lowercase(s: &str) -> (r: String)
    ensures
        r@ == ascii_lower_text(s@),
{
    s.to_ascii_lowercase()
}

/* Parsing */

/// The text a mode is compared on: trimmed, and lower case in ASCII.
pub open spec fn mode_key(value: Seq<char>) -> Seq<char> {
    ascii_lower_text(trimmed_text(value))
}

pub open spec fn unknown_mode_message(key: Seq<char>) -> Seq<char> {
    "unknown mode "@ + debug_form(key) + "; expected \"local\" or \"remote\""@
}

/// An unknown value is an error, never a silent fall back to local: a typo
/// in a deployment variable must not quietly stop using the remote server.
pub open spec fn spec_parse_mode(value: Seq<char>) -> Result<Mode, SpecError> {
    let key = mode_key(value);
    if key == "local"@ {
        Ok(Mode::Local)
    } else if key == "remote"@ {
        Ok(Mode::Remote)
    } else {
        Err(SpecError::Config(unknown_mode_message(key)))
    }
}

/// An unknown value is refused, never read as local: parsing gives local
/// only for text that is `local` once trimmed and lower-cased, remote only
/// for `remote`, and a configuration error for anything else.
pub proof fn lemma_unknown_mode_is_error(value: Seq<char>)
    ensures
        spec_parse_mode(value) == Ok::<Mode, SpecError>(Mode::Local) <==> mode_key(value) == "local"@,
        spec_parse_mode(value) == Ok::<Mode, SpecError>(Mode::Remote) <==> mode_key(value) == "remote"@,
        spec_parse_mode(value) is Err ==> spec_parse_mode(value)->Err_0 is Config,
{
    reveal_strlit("local");
    reveal_strlit("remote");
    assert("local"@.len() != "remote"@.len());
}

pub open spec fn spec_mode_from_env(value: SpecEnvValue) -> Result<Mode, SpecError> {
    match value {
        SpecEnvValue::NotPresent => Ok(Mode::Local),
        SpecEnvValue::Unreadable(why) => Err(SpecError::Config("SOMETHING_MODE is unreadable: "@ + why)),
        SpecEnvValue::Present(value) => spec_parse_mode(value),
    }
}

pub open spec fn mode_result_view(r: Result<Mode, Error>) -> Result<Mode, SpecError> {
    match r {
        Ok(m) => Ok(m),
        Err(e) => Err(e@),
    }
}

impl Mode {
    /// `local` or `remote`, ignoring case and surrounding white space.
    pub fn parse(value: &str) -> (r: Result<Mode, Error>)
        ensures
            mode_result_view(r) == spec_parse_mode(value@),
    {
        let key = ascii_lowercase(trim_str(value));
        let local = "local".to_owned();
        let remote = "remote".to_owned();
        if key == local {
            Ok(Mode::Local)
        } else if key == remote {
            Ok(Mode::Remote)
        } else {
            let mut message = "unknown mode ".to_owned();
            let quoted = debug_quoted(key.as_str());
            message.append(quoted.as_str());
            message.append("; expected \"local\" or \"remote\"");
            assert(message@ =~= unknown_mode_message(key@));
            Err(Error::Config(message))
        }
    }

    /// The mode that the value of `SOMETHING_MODE` selects; `local` when it
    /// is not set.
    pub fn from_env(value: EnvValue) -> (r: Result<Mode, Error>)
        ensures
            mode_result_view(r) == spec_mode_from_env(value@),
    {
        match value {
            EnvValue::NotPresent => Ok(Mode::Local),
            EnvValue::Unreadable(why) => {
                let mut message = "SOMETHING_MODE is unreadable: ".to_owned();
                message.append(why.as_str());
                Err(Error::Config(message))
            },
            EnvValue::Present(value) => Mode::parse(value.as_str()),
        }
    }
}

impl core::str::FromStr for Mode {
    type Err = Error;

    /// `local` or `remote`, ignoring case and surrounding white space.
    fn from_str(value: &str) -> (r: Result<Mode, Error>)
        ensures
            mode_result_view(r) == spec_parse_mode(value@),
    {
        Mode::parse(value)
    }
}

} // verus!
