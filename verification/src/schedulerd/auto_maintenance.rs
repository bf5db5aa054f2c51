//! When the memory is maintained without being asked.
use crate::runtime::session::{number_from, number_or};
use crate::text::{chars_of, opt_str_view, parse_unsigned, parsed_unsigned, same};
use vstd::prelude::*;

verus! {

/// When the memory is maintained.
#[derive(Debug, Clone, Copy, PartialEq, Eq, Structural)]
pub struct AutoMaintenanceConfig {
    pub enabled: bool,
    pub interval_secs: u64,
    /// How many memories of a scope must wait before they are folded.
    pub threshold: i64,
}

/// A positive number of seconds, or a quarter of an hour.
pub open spec fn interval_of(value: Option<Seq<char>>) -> nat {
    match value {
        Some(v) => match parsed_unsigned(v, u64::MAX as nat) {
            Some(n) => if n > 0 {
                n
            } else {
                900
            },
            None => 900,
        },
        None => 900,
    }
}

impl AutoMaintenanceConfig {
    /// What the values ask for; what they leave open or get wrong is as usual.
    pub fn from_values(enabled: Option<&str>, interval_secs: Option<&str>, threshold: Option<&str>) -> (r: AutoMaintenanceConfig)
        ensures
            r.enabled == (opt_str_view(enabled) != Some("0"@)),
            r.interval_secs == interval_of(opt_str_view(interval_secs)),
            r.interval_secs > 0,
            r.threshold == number_or(opt_str_view(threshold), 1, 40),
            r.threshold > 0,
    {
        let on = match enabled {
            Some(e) => !same(e, "0"),
            None => true,
        };
        let secs: u64 = match interval_secs {
            Some(v) => {
                let c = chars_of(v);
                match parse_unsigned(c.as_slice(), u64::MAX) {
                    Some(n) => if n > 0 {
                        n
                    } else {
                        900
                    },
                    None => 900,
                }
            },
            None => 900,
        };
        AutoMaintenanceConfig { enabled: on, interval_secs: secs, threshold: number_from(threshold, 1, 40) }
    }
}

} // verus!
