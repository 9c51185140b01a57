//! Runtime configuration: the recognized options and their defaults.
//!
//! The configuration file itself is an external collaborator; the caller
//! reads it and hands the raw option values in. A missing or unparseable
//! value falls back to its default: listen address 127.0.0.1, listen port
//! 12345, three listener workers, store location ./db.sqlite.

use vstd::prelude::*;
use vstd::slice::slice_index_get;
use vstd::utf8::encode_utf8;

verus! {

/// True when `b` is an ASCII decimal digit.
pub open spec fn dec_digit(b: u8) -> bool {
    48 <= b <= 57
}

/// True when every byte of `s` is a decimal digit.
pub open spec fn all_digits(s: Seq<u8>) -> bool {
    forall|i: int| 0 <= i < s.len() ==> dec_digit(#[trigger] s[i])
}

/// The value of a run of decimal digits, most significant first.
pub open spec fn dec_value(s: Seq<u8>) -> nat
    decreases s.len(),
{
    if s.len() == 0 {
        0
    } else {
        dec_value(s.drop_last()) * 10 + (if dec_digit(s.last()) {
            (s.last() - 48) as nat
        } else {
            0
        })
    }
}

/// What parsing a bounded decimal yields: the value when the text is one or
/// more digits whose value is at most `max`, and nothing otherwise.
pub open spec fn spec_parse_decimal(s: Seq<u8>, max: nat) -> Option<u32> {
    if s.len() > 0 && all_digits(s) && dec_value(s) <= max {
        Some(dec_value(s) as u32)
    } else {
        None
    }
}

/// Parse an unsigned decimal of at most `max`; empty text, a non-digit or a
/// too-large value all yield `None`.
pub fn parse_decimal(s: &str, max: u32) -> (r: Option<u32>)
    requires
        max <= 0xFFFF,
    ensures
        r == spec_parse_decimal(encode_utf8(s@), max as nat),
{
    let bytes = s.as_bytes();
    let n = bytes.len();
    if n == 0 {
        return None;
    }
    let mut acc: u32 = 0;
    let mut over: bool = false;
    let mut i: usize = 0;
    while i < n
        invariant
            n == bytes@.len(),
            bytes@ == encode_utf8(s@),
            i <= n,
            max <= 0xFFFF,
            all_digits(bytes@.take(i as int)),
            !over ==> acc as nat == dec_value(bytes@.take(i as int)) && acc <= max,
            over ==> dec_value(bytes@.take(i as int)) > max,
        decreases n - i,
    {
        proof {
            assert(bytes@.take(i as int + 1).drop_last() =~= bytes@.take(i as int));
        }
        let b = *slice_index_get(bytes, i);
        if b < 48 || b > 57 {
            proof {
                assert(!all_digits(encode_utf8(s@))) by {
                    assert(encode_utf8(s@)[i as int] == bytes@[i as int]);
                    assert(!dec_digit(encode_utf8(s@)[i as int]));
                }
            }
            return None;
        }
        let d = (b - 48) as u32;
        if !over {
            let widened: u32 = acc * 10 + d;
            if widened > max {
                over = true;
            } else {
                acc = widened;
            }
        }
        i += 1;
    }
    proof {
        assert(bytes@.take(n as int) =~= bytes@);
    }
    if over {
        None
    } else {
        Some(acc)
    }
}

/// What the daemon runs with: listen address and port, listener worker
/// count, and the store location.
pub struct Config {
    pub ip: String,
    pub port: u16,
    pub threads: u8,
    pub db_path: String,
}

impl Config {
    /// Build the configuration from the recognized option values, each
    /// absent when the configuration file lacks it. The address and store
    /// location are taken as given; the port and worker count are decimals
    /// bounded by their types; anything missing or unparseable becomes its
    /// default.
    pub fn new(
        ip: Option<String>,
        port: Option<String>,
        threads: Option<String>,
        db_path: Option<String>,
    ) -> (c: Config)
        ensures
            c.ip@ == (match ip {
                Some(s) => s@,
                None => "127.0.0.1"@,
            }),
            c.port as int == (match port {
                Some(s) => match spec_parse_decimal(encode_utf8(s@), 65535) {
                    Some(v) => v as int,
                    None => 12345,
                },
                None => 12345,
            }),
            c.threads as int == (match threads {
                Some(s) => match spec_parse_decimal(encode_utf8(s@), 255) {
                    Some(v) => v as int,
                    None => 3,
                },
                None => 3,
            }),
            c.db_path@ == (match db_path {
                Some(s) => s@,
                None => "./db.sqlite"@,
            }),
    {
        let ip_value: String = match ip {
            Some(s) => s,
            None => "127.0.0.1".to_owned(),
        };
        let port_value: u16 = match port {
            Some(s) => match parse_decimal(s.as_str(), 65535) {
                Some(v) => v as u16,
                None => 12345,
            },
            None => 12345,
        };
        let threads_value: u8 = match threads {
            Some(s) => match parse_decimal(s.as_str(), 255) {
                Some(v) => v as u8,
                None => 3,
            },
            None => 3,
        };
        let db_path_value: String = match db_path {
            Some(s) => s,
            None => "./db.sqlite".to_owned(),
        };
        Config { ip: ip_value, port: port_value, threads: threads_value, db_path: db_path_value }
    }
}

} // verus!
