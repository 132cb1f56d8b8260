//! The configuration, built once from the environment variables that the
//! caller read and passed on from there.

use crate::utils::{env_find, env_lookup};
use vstd::prelude::*;
use vstd::string::StrSliceExecFns;

verus! {

/// How to reach the database.
#[derive(Debug)]
pub struct PgSettings {
    pub user: String,
    pub password: String,
    pub host: String,
    pub port: u16,
    pub dbname: String,
}

/// The configuration of the service.
#[derive(Debug)]
pub struct Config {
    pub pg: PgSettings,
}

/// The number written by decimal digits, the last one counting least.
pub open spec fn digits_number(digits: Seq<char>) -> nat
    decreases digits.len(),
{
    if digits.len() == 0 {
        0
    } else {
        (10 * digits_number(digits.drop_last()) + (digits.last() as u32 - '0' as u32)) as nat
    }
}

/// Every character is a decimal digit.
pub open spec fn all_digits(digits: Seq<char>) -> bool {
    forall|i: int| 0 <= i < digits.len() ==> '0' <= #[trigger] digits[i] <= '9'
}

/// The port that a text names: decimal digits, at least one, after an
/// optional plus sign, with a value that fits in 16 bits.
pub open spec fn port_of(text: Seq<char>) -> Option<u16> {
    let digits = if text.len() > 0 && text[0] == '+' {
        text.drop_first()
    } else {
        text
    };
    if digits.len() > 0 && all_digits(digits) && digits_number(digits) <= u16::MAX {
        Some(digits_number(digits) as u16)
    } else {
        None
    }
}

/// A number never falls when a digit is appended.
proof fn lemma_digits_number_grows(digits: Seq<char>, shorter: int)
    requires
        all_digits(digits),
        0 <= shorter <= digits.len(),
    ensures
        digits_number(digits.subrange(0, shorter)) <= digits_number(digits),
    decreases digits.len() - shorter,
{
    if shorter < digits.len() {
        let next = digits.subrange(0, shorter + 1);
        assert(next.drop_last() =~= digits.subrange(0, shorter));
        assert(next.last() == digits[shorter]);
        lemma_digits_number_grows(digits, shorter + 1);
    } else {
        assert(digits.subrange(0, shorter) =~= digits);
    }
}

/// The port that a text names, read as `u16::from_str` reads it.
pub fn parse_port(text: &str) -> (port: Option<u16>)
    ensures
        port == port_of(text@),
{
    let len = text.unicode_len();
    let start: usize = if len > 0 && text.get_char(0) == '+' {
        1
    } else {
        0
    };
    if start == len {
        return None;
    }
    let ghost digits = text@.subrange(start as int, len as int);
    proof {
        if start == 1 {
            assert(digits =~= text@.drop_first());
        } else {
            assert(digits =~= text@);
        }
    }
    let mut value: u32 = 0;
    let mut i: usize = start;
    while i < len
        invariant
            start <= i <= len,
            len == text@.len(),
            digits == text@.subrange(start as int, len as int),
            digits == (if text@.len() > 0 && text@[0] == '+' {
                text@.drop_first()
            } else {
                text@
            }),
            all_digits(digits.subrange(0, i - start)),
            value == digits_number(digits.subrange(0, i - start)),
            value <= u16::MAX,
        decreases len - i,
    {
        let c = text.get_char(i);
        let ghost seen = digits.subrange(0, i - start);
        let ghost more = digits.subrange(0, i - start + 1);
        proof {
            assert(more.drop_last() =~= seen);
            assert(more.last() == c);
            assert(digits[i - start] == c);
        }
        if c < '0' || c > '9' {
            proof {
                if all_digits(digits) {
                    assert('0' <= digits[i - start] <= '9');
                }
            }
            return None;
        }
        proof {
            assert forall|j: int| 0 <= j < more.len() implies '0' <= #[trigger] more[j] <= '9' by {
                if j < seen.len() {
                    assert(more[j] == seen[j]);
                }
            }
        }
        let digit = c as u32 - '0' as u32;
        value = value * 10 + digit;
        if value > u16::MAX as u32 {
            proof {
                if all_digits(digits) {
                    lemma_digits_number_grows(digits, i - start + 1);
                }
            }
            return None;
        }
        i += 1;
    }
    proof {
        assert(digits.subrange(0, len - start) =~= digits);
    }
    Some(value as u16)
}

/// The settings that a list of variables holds: `PG_USER`, `PG_PASSWORD`,
/// `PG_HOST`, `PG_PORT` and `PG_DBNAME`, all of which must be there, the
/// port as a number.
pub open spec fn settings_of(vars: Seq<(String, String)>) -> Option<
    (Seq<char>, Seq<char>, Seq<char>, u16, Seq<char>),
> {
    match (
        env_lookup(vars, "PG_USER"@),
        env_lookup(vars, "PG_PASSWORD"@),
        env_lookup(vars, "PG_HOST"@),
        env_lookup(vars, "PG_PORT"@),
        env_lookup(vars, "PG_DBNAME"@),
    ) {
        (Some(user), Some(password), Some(host), Some(port), Some(dbname)) => match port_of(
            port,
        ) {
            Some(number) => Some((user, password, host, number, dbname)),
            None => None,
        },
        _ => None,
    }
}

impl View for PgSettings {
    type V = (Seq<char>, Seq<char>, Seq<char>, u16, Seq<char>);

    open spec fn view(&self) -> (Seq<char>, Seq<char>, Seq<char>, u16, Seq<char>) {
        (self.user@, self.password@, self.host@, self.port, self.dbname@)
    }
}

impl Config {
    /// The configuration that the variables hold, if they hold all of it.
    pub fn load(environment_vars: &[(String, String)]) -> (config: Option<Config>)
        ensures
            match config {
                Some(c) => settings_of(environment_vars@) == Some(c.pg@),
                None => settings_of(environment_vars@) is None,
            },
    {
        let user = match env_find(environment_vars, "PG_USER") {
            Some(user) => user,
            None => {
                return None;
            },
        };
        let password = match env_find(environment_vars, "PG_PASSWORD") {
            Some(password) => password,
            None => {
                return None;
            },
        };
        let host = match env_find(environment_vars, "PG_HOST") {
            Some(host) => host,
            None => {
                return None;
            },
        };
        let port = match env_find(environment_vars, "PG_PORT") {
            Some(port) => port,
            None => {
                return None;
            },
        };
        let dbname = match env_find(environment_vars, "PG_DBNAME") {
            Some(dbname) => dbname,
            None => {
                return None;
            },
        };
        match parse_port(port.as_str()) {
            Some(port) => Some(Config { pg: PgSettings { user, password, host, port, dbname } }),
            None => None,
        }
    }

    /// The configuration that the variables hold, which must be complete.
    pub fn new(environment_vars: &[(String, String)]) -> (config: Config)
        requires
            settings_of(environment_vars@) is Some,
        ensures
            settings_of(environment_vars@) == Some(config.pg@),
    {
        match Config::load(environment_vars) {
            Some(config) => config,
            None => vstd::pervasive::unreached(),
        }
    }
}

} // verus!
