//! The memory as a service.
use crate::gateway::config::{db_url_from_env, home_db_url, text_or};
use crate::memory::error::MemoryError;
use crate::text::{chars_of, opt_str_view, opt_text, parse_unsigned, parsed_unsigned, str_strip, str_trim, stripped, trimmed};
use vstd::prelude::*;
use vstd::utf8::encode_utf8_decode_utf8;

verus! {

/// How the service runs.
#[derive(Debug, Clone, PartialEq, Eq)]
pub struct Config {
    pub db_url: String,
    pub port: u16,
    pub host: String,
    /// Whoever asks must know it, where there is one.
    pub token: Option<String>,
}

/// The port where nothing else is said.
pub const DEFAULT_PORT: u16 = 3917;

/// The port of a value; the usual one where there is none or it is no port.
pub open spec fn port_of(value: Option<Seq<char>>) -> nat {
    match value {
        Some(v) => match parsed_unsigned(v, 65535) {
            Some(n) => n,
            None => DEFAULT_PORT as nat,
        },
        None => DEFAULT_PORT as nat,
    }
}

impl Config {
    /// What the values of the environment ask for. By default only the machine itself is served.
    pub fn from_values(db: Option<&str>, home: Option<&str>, port: Option<&str>, host: Option<&str>, token: Option<&str>) -> (r: Config)
        ensures
            r.db_url@ == text_or(opt_str_view(db), home_db_url(opt_str_view(home))),
            r.port == port_of(opt_str_view(port)),
            r.host@ == text_or(opt_str_view(host), "127.0.0.1"@),
            opt_text(r.token) == (match token {
                Some(t) => if t@.len() > 0 {
                    Some(t@)
                } else {
                    None
                },
                None => None,
            }),
    {
        let number: u16 = match port {
            Some(p) => {
                let v = chars_of(p);
                match parse_unsigned(v.as_slice(), 65535) {
                    Some(n) => n as u16,
                    None => DEFAULT_PORT,
                }
            },
            None => DEFAULT_PORT,
        };
        Config {
            db_url: db_url_from_env(db, home),
            port: number,
            host: match host {
                Some(h) => h.to_owned(),
                None => "127.0.0.1".to_owned(),
            },
            token: match token {
                Some(t) => if t.is_empty() {
                    None
                } else {
                    Some(t.to_owned())
                },
                None => None,
            },
        }
    }
}

/// The HTTP status of an error.
pub fn error_status(e: &MemoryError) -> (r: u16)
    ensures
        r == (match *e {
            MemoryError::InvalidScope(_) => 400u16,
            MemoryError::InvalidQuery(_) => 400u16,
            MemoryError::NotFound => 404u16,
            _ => 500u16,
        }),
{
    match e {
        MemoryError::InvalidScope(_) => 400,
        MemoryError::InvalidQuery(_) => 400,
        MemoryError::NotFound => 404,
        _ => 500,
    }
}

proof fn differing_bits(d: u8, x: u8, y: u8)
    ensures
        (d | (x ^ y)) == 0 <==> d == 0 && x == y,
{
    assert((d | (x ^ y)) == 0 <==> d == 0 && x == y) by (bit_vector);
}

/// Whether two byte strings are the same, looking at every byte wherever they differ.
pub fn ct_eq(a: &[u8], b: &[u8]) -> (r: bool)
    ensures
        r == (a@ == b@),
{
    if a.len() != b.len() {
        return false;
    }
    let mut diff: u8 = 0;
    let mut i: usize = 0;
    assert(a@.take(0) =~= b@.take(0));
    while i < a.len()
        invariant
            i <= a@.len(),
            a@.len() == b@.len(),
            diff == 0 <==> a@.take(i as int) == b@.take(i as int),
        decreases a@.len() - i,
    {
        let ghost before = diff;
        let x: u8 = a[i];
        let y: u8 = b[i];
        diff = diff | (x ^ y);
        proof {
            differing_bits(before, x, y);
            assert(a@.take(i + 1) =~= a@.take(i as int).push(x));
            assert(b@.take(i + 1) =~= b@.take(i as int).push(y));
            assert(a@.take(i as int) =~= a@.take(i + 1).drop_last());
            assert(b@.take(i as int) =~= b@.take(i + 1).drop_last());
            assert(a@.take(i + 1).last() == x && b@.take(i + 1).last() == y);
        }
        i = i + 1;
    }
    assert(a@.take(i as int) =~= a@);
    assert(b@.take(i as int) =~= b@);
    diff == 0
}

/// The token of an authorization header.
pub open spec fn bearer_of(header: Option<Seq<char>>) -> Option<Seq<char>> {
    match header {
        Some(h) => match stripped(h, "Bearer "@) {
            Some(t) => Some(trimmed(t)),
            None => None,
        },
        None => None,
    }
}

/// Whether a request may pass: any where no token is asked for, otherwise those that know it.
pub fn is_authorized(token: Option<&str>, header: Option<&str>) -> (r: bool)
    ensures
        r == (match token {
            None => true,
            Some(t) => bearer_of(opt_str_view(header)) == Some(t@),
        }),
{
    let expected = match token {
        None => {
            return true;
        },
        Some(t) => t,
    };
    match header {
        None => false,
        Some(h) => match str_strip(h, "Bearer ") {
            None => false,
            Some(rest) => {
                let given = str_trim(rest.as_str());
                proof {
                    encode_utf8_decode_utf8(given@);
                    encode_utf8_decode_utf8(expected@);
                }
                ct_eq(given.as_str().as_bytes(), expected.as_bytes())
            },
        },
    }
}

} // verus!
