//! Process settings, from values read out of the environment.
use vstd::prelude::*;

use crate::number::{parse_unsigned, u64_value};
use crate::text::chars_of;

verus! {

/// The port served on when none is configured.
pub const DEFAULT_PORT: u16 = 8080;

/// Where the document store is and which port the server listens on.
pub struct Settings {
    pub mongo_uri: String,
    pub port: u16,
}

/// Why settings could not be formed.
#[derive(Clone, Copy, Debug, PartialEq, Eq, Structural)]
pub enum SettingsError {
    /// The port is not a decimal number within `u16`.
    InvalidPort,
}

/// The digits of a port: the text after one optional leading `+`.
pub open spec fn port_digits(p: Seq<char>) -> Seq<char> {
    if p.len() > 0 && p[0] == '+' {
        p.drop_first()
    } else {
        p
    }
}

/// The port that a configured value spells: the default when none is given,
/// else an optional `+` and a decimal number within `u16`.
pub open spec fn port_spec(port: Option<Seq<char>>) -> Option<u16> {
    match port {
        None => Some(DEFAULT_PORT),
        Some(p) => match u64_value(port_digits(p)) {
            Some(v) => if v <= u16::MAX {
                Some(v as u16)
            } else {
                None
            },
            None => None,
        },
    }
}

impl Settings {
    /// Forms the settings from the store's address and an optional port.
    pub fn from_values(mongo_uri: String, port: Option<String>) -> (r: Result<Settings, SettingsError>)
        ensures
            port_spec(
                match port {
                    Some(p) => Some(p@),
                    None => None,
                },
            ) is Some <==> r is Ok,
            r is Ok ==> r->Ok_0.mongo_uri@ == mongo_uri@ && Some(r->Ok_0.port) == port_spec(
                match port {
                    Some(p) => Some(p@),
                    None => None,
                },
            ),
    {
        let value: u16 = match &port {
            None => DEFAULT_PORT,
            Some(p) => {
                let cs = chars_of(p.as_str());
                let first: usize = if cs.len() > 0 && cs[0] == '+' {
                    1
                } else {
                    0
                };
                proof {
                    assert(cs@.subrange(first as int, cs@.len() as int) =~= port_digits(cs@));
                }
                match parse_unsigned(&cs, first, cs.len()) {
                    Some(v) => if v <= u16::MAX as u64 {
                        v as u16
                    } else {
                        return Err(SettingsError::InvalidPort);
                    },
                    None => {
                        return Err(SettingsError::InvalidPort);
                    },
                }
            },
        };
        Ok(Settings { mongo_uri, port: value })
    }
}

} // verus!
