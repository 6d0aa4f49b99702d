use vstd::prelude::*;

use crate::text::{parse_u64, parse_unsigned, parse_usize, trim, trimmed};

verus! {

/// `value` with surrounding white space removed, or `None` when nothing is left.
pub fn optional_trimmed(value: &str) -> (r: Option<String>)
    ensures
        match r {
            Some(s) => trimmed(value@).len() > 0 && s@ == trimmed(value@),
            None => trimmed(value@).len() == 0,
        },
{
    let v = trim(value);
    if v.is_empty() {
        None
    } else {
        Some(v.to_owned())
    }
}

/// Unsigned integer types that std's `FromStr` reads from decimal text.
pub trait DecimalValue: Sized {
    /// The largest value of the type.
    spec fn max_value() -> nat;

    /// The value as a natural number.
    spec fn as_nat(self) -> nat;

    /// The value written in `s`: an optional `+` and decimal digits, at most
    /// the largest value; `None` for anything else.
    fn parse_decimal(s: &str) -> (r: Option<Self>)
        ensures
            match r {
                Some(n) => parse_unsigned(s@, Self::max_value()) == Some(n.as_nat()),
                None => parse_unsigned(s@, Self::max_value()) is None,
            };
}

impl DecimalValue for usize {
    open spec fn max_value() -> nat {
        usize::MAX as nat
    }

    open spec fn as_nat(self) -> nat {
        self as nat
    }

    fn parse_decimal(s: &str) -> (r: Option<usize>) {
        parse_usize(s)
    }
}

impl DecimalValue for u64 {
    open spec fn max_value() -> nat {
        u64::MAX as nat
    }

    open spec fn as_nat(self) -> nat {
        self as nat
    }

    fn parse_decimal(s: &str) -> (r: Option<u64>) {
        parse_u64(s)
    }
}

/// The number written in `value`, surrounding white space allowed; `None` for
/// an empty or malformed value.
pub fn optional_parse<T: DecimalValue>(value: &str) -> (r: Option<T>)
    ensures
        match r {
            Some(n) => parse_unsigned(trimmed(value@), T::max_value()) == Some(n.as_nat()),
            None => parse_unsigned(trimmed(value@), T::max_value()) is None,
        },
{
    let v = trim(value);
    if v.is_empty() {
        assert(parse_unsigned(v@, T::max_value()) is None);
        None
    } else {
        T::parse_decimal(v)
    }
}

/// The recorder's part of the configuration.
#[derive(Debug, Clone)]
pub struct RecorderConfig {
    pub enabled: bool,
    pub filename: Option<String>,
    pub batch_size: usize,
    pub flush_interval_ms: u64,
}

/// Takes the recorder settings as edited in the user interface into the
/// configuration: whether to record, the trimmed file name (none when blank),
/// and the batch size and flush interval where they parse.
pub fn apply_recorder_edits(
    config: &mut RecorderConfig,
    enable_recording: bool,
    filename_edit: &str,
    batch_size_edit: &str,
    flush_interval_edit: &str,
)
    ensures
        final(config).enabled == enable_recording,
        match final(config).filename {
            Some(s) => trimmed(filename_edit@).len() > 0 && s@ == trimmed(filename_edit@),
            None => trimmed(filename_edit@).len() == 0,
        },
        final(config).batch_size == (match parse_unsigned(trimmed(batch_size_edit@), usize::MAX as nat) {
            Some(n) => n as usize,
            None => old(config).batch_size,
        }),
        final(config).flush_interval_ms == (match parse_unsigned(trimmed(flush_interval_edit@), u64::MAX as nat) {
            Some(n) => n as u64,
            None => old(config).flush_interval_ms,
        }),
{
    config.enabled = enable_recording;
    config.filename = optional_trimmed(filename_edit);
    if let Some(batch_size) = optional_parse::<usize>(batch_size_edit) {
        config.batch_size = batch_size;
    }
    if let Some(flush_interval) = optional_parse::<u64>(flush_interval_edit) {
        config.flush_interval_ms = flush_interval;
    }
}

} // verus!
