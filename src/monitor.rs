//! The probe tool's one-line status report and its parser.

use vstd::prelude::*;
use vstd::string::*;

use crate::text::{parse_u16, split_once, split_once_str, str_eq, u16_of};

verus! {

/// A field of the status report, in the order in which it appears.
#[derive(Clone, Copy, Debug, PartialEq, Eq, Structural)]
pub enum Field {
    Version,
    Online,
    Max,
    Motd,
}

/// Why a status report could not be read.
#[derive(Clone, Copy, Debug, PartialEq, Eq, Structural)]
pub enum ParseError {
    /// The report holds no `" : "` after the host.
    MissingSeparator,
    /// The report ended where a space was due before this field.
    UnexpectedEnd(Field),
    /// The field's segment holds no `=`.
    MissingEquals(Field),
    /// The field's segment is not named as this field.
    UnexpectedKey(Field),
    /// The player count is not a 16-bit unsigned decimal.
    InvalidPlayerCount(Field),
    /// The message of the day is not wrapped in single quotes.
    UnquotedMotd,
}

/// What the probe reports of a server that answered.
#[derive(Clone, Debug)]
pub struct MonitorOutput {
    pub version: String,
    pub online_player_count: u16,
    pub max_player_count: u16,
    pub motd: String,
}

pub ghost struct MonitorView {
    pub version: Seq<char>,
    pub online_player_count: u16,
    pub max_player_count: u16,
    pub motd: Seq<char>,
}

impl View for MonitorOutput {
    type V = MonitorView;

    open spec fn view(&self) -> MonitorView {
        MonitorView {
            version: self.version@,
            online_player_count: self.online_player_count,
            max_player_count: self.max_player_count,
            motd: self.motd@,
        }
    }
}

impl MonitorOutput {
    /// A copy with the same contents.
    pub fn duplicate(&self) -> (r: MonitorOutput)
        ensures
            r@ == self@,
    {
        MonitorOutput {
            version: self.version.clone(),
            online_player_count: self.online_player_count,
            max_player_count: self.max_player_count,
            motd: self.motd.clone(),
        }
    }
}

/// The value of a `name=value` segment whose name must be `name`.
pub open spec fn field_value(seg: Seq<char>, name: Seq<char>, f: Field) -> Result<
    Seq<char>,
    ParseError,
> {
    match split_once(seg, seq!['=']) {
        None => Err(ParseError::MissingEquals(f)),
        Some((k, v)) => if k == name {
            Ok(v)
        } else {
            Err(ParseError::UnexpectedKey(f))
        },
    }
}

/// A player count segment.
pub open spec fn count_value(seg: Seq<char>, name: Seq<char>, f: Field) -> Result<u16, ParseError> {
    match field_value(seg, name, f) {
        Err(e) => Err(e),
        Ok(v) => match u16_of(v) {
            Some(n) => Ok(n),
            None => Err(ParseError::InvalidPlayerCount(f)),
        },
    }
}

/// The text between the single quotes of a quoted value.
pub open spec fn unquoted(v: Seq<char>) -> Result<Seq<char>, ParseError> {
    if v.len() >= 2 && v[0] == '\'' && v[v.len() - 1] == '\'' {
        Ok(v.subrange(1, v.len() - 1))
    } else {
        Err(ParseError::UnquotedMotd)
    }
}

/// The reading of a report
/// `<host> : version=<v> online=<n> max=<m> motd='<text>'`, field by field
/// from the left, failing at the first deviation.
pub open spec fn parse_report(s: Seq<char>) -> Result<MonitorView, ParseError> {
    match split_once(s, seq![' ', ':', ' ']) {
        None => Err(ParseError::MissingSeparator),
        Some((_host, rest)) => match split_once(rest, seq![' ']) {
            None => Err(ParseError::UnexpectedEnd(Field::Version)),
            Some((vseg, rest)) => match field_value(vseg, "version"@, Field::Version) {
                Err(e) => Err(e),
                Ok(version) => match split_once(rest, seq![' ']) {
                    None => Err(ParseError::UnexpectedEnd(Field::Online)),
                    Some((oseg, rest)) => match count_value(oseg, "online"@, Field::Online) {
                        Err(e) => Err(e),
                        Ok(online) => match split_once(rest, seq![' ']) {
                            None => Err(ParseError::UnexpectedEnd(Field::Max)),
                            Some((mseg, rest)) => match count_value(mseg, "max"@, Field::Max) {
                                Err(e) => Err(e),
                                Ok(max) => match field_value(rest, "motd"@, Field::Motd) {
                                    Err(e) => Err(e),
                                    Ok(quoted) => match unquoted(quoted) {
                                        Err(e) => Err(e),
                                        Ok(motd) => Ok(
                                            MonitorView {
                                                version,
                                                online_player_count: online,
                                                max_player_count: max,
                                                motd,
                                            },
                                        ),
                                    },
                                },
                            },
                        },
                    },
                },
            },
        },
    }
}

pub open spec fn parse_result_view(r: Result<MonitorOutput, ParseError>) -> Result<
    MonitorView,
    ParseError,
> {
    match r {
        Ok(m) => Ok(m@),
        Err(e) => Err(e),
    }
}

fn field_of<'a>(seg: &'a str, name: &str, f: Field) -> (r: Result<&'a str, ParseError>)
    ensures
        match field_value(seg@, name@, f) {
            Ok(v) => r matches Ok(x) && x@ == v,
            Err(e) => r == Err::<&str, ParseError>(e),
        },
{
    match split_once_str(seg, "=") {
        None => {
            proof {
                reveal_strlit("=");
                assert("="@ =~= seq!['=']);
            }
            Err(ParseError::MissingEquals(f))
        },
        Some((k, v)) => {
            proof {
                reveal_strlit("=");
                assert("="@ =~= seq!['=']);
            }
            if str_eq(k, name) {
                Ok(v)
            } else {
                Err(ParseError::UnexpectedKey(f))
            }
        },
    }
}

fn count_of(seg: &str, name: &str, f: Field) -> (r: Result<u16, ParseError>)
    ensures
        r == count_value(seg@, name@, f),
{
    let v = field_of(seg, name, f)?;
    match parse_u16(v) {
        Some(n) => Ok(n),
        None => Err(ParseError::InvalidPlayerCount(f)),
    }
}

fn unquote(v: &str) -> (r: Result<String, ParseError>)
    ensures
        match unquoted(v@) {
            Ok(t) => r matches Ok(x) && x@ == t,
            Err(e) => r == Err::<String, ParseError>(e),
        },
{
    let l = v.unicode_len();
    if l >= 2 && v.get_char(0) == '\'' && v.get_char(l - 1) == '\'' {
        Ok(v.substring_char(1, l - 1).to_owned())
    } else {
        Err(ParseError::UnquotedMotd)
    }
}

impl MonitorOutput {
    /// Reads the probe tool's status report.
    pub fn parse(output: &str) -> (r: Result<MonitorOutput, ParseError>)
        ensures
            parse_result_view(r) == parse_report(output@),
    {
        proof {
            reveal_strlit(" : ");
            reveal_strlit(" ");
            assert(" : "@ =~= seq![' ', ':', ' ']);
            assert(" "@ =~= seq![' ']);
        }
        let rest = match split_once_str(output, " : ") {
            Some((_host, rest)) => rest,
            None => return Err(ParseError::MissingSeparator),
        };
        let (vseg, rest) = match split_once_str(rest, " ") {
            Some(p) => p,
            None => return Err(ParseError::UnexpectedEnd(Field::Version)),
        };
        let version = field_of(vseg, "version", Field::Version)?;
        let (oseg, rest) = match split_once_str(rest, " ") {
            Some(p) => p,
            None => return Err(ParseError::UnexpectedEnd(Field::Online)),
        };
        let online = count_of(oseg, "online", Field::Online)?;
        let (mseg, rest) = match split_once_str(rest, " ") {
            Some(p) => p,
            None => return Err(ParseError::UnexpectedEnd(Field::Max)),
        };
        let max = count_of(mseg, "max", Field::Max)?;
        let quoted = field_of(rest, "motd", Field::Motd)?;
        let motd = unquote(quoted)?;
        Ok(
            MonitorOutput {
                version: version.to_owned(),
                online_player_count: online,
                max_player_count: max,
                motd,
            },
        )
    }
}

} // verus!
