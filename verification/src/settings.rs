//! The settings that the setup reads from its environment, each from the
//! variable's text (`None` when the variable is not set).

use vstd::prelude::*;
use crate::numbers::{decimal, parse_bounded, parse_u32, parse_u64, parse_usize, u64_to_string};
use crate::text::{ascii_lower_spec, ascii_lowercase, chars_eq, chars_of, trim, trim_chars, trim_spec};

verus! {

/// The number that `text.trim().parse()` reads, for a type whose largest
/// value is `max`.
pub open spec fn trimmed_number(text: Seq<char>, max: nat) -> Option<nat> {
    parse_bounded(trim_spec(text), max)
}

/// The seconds between health-check messages: the trimmed number in the
/// variable, 30 when it is unset or not a number; 0 turns the messages off
/// (`None`).
pub open spec fn health_check_secs(value: Option<Seq<char>>) -> Option<nat> {
    let secs = match value {
        Some(v) => match trimmed_number(v, u64::MAX as nat) {
            Some(n) => n,
            None => 30,
        },
        None => 30,
    };
    if secs == 0 {
        None
    } else {
        Some(secs)
    }
}

/// The interval of the health-check messages, in seconds.
pub fn health_check_interval(value: Option<String>) -> (r: Option<u64>)
    ensures
        match health_check_secs(
            match value {
                Some(v) => Some(v@),
                None => None,
            },
        ) {
            Some(n) => r == Some(n as u64),
            None => r is None,
        },
{
    let secs: u64 = match value {
        Some(v) => {
            let t = trim(v.as_str());
            match parse_u64(t.as_str()) {
                Some(n) => n,
                None => 30,
            }
        },
        None => 30,
    };
    if secs == 0 {
        None
    } else {
        Some(secs)
    }
}

/// Whether a health-check message is due: messages are on, and at least the
/// interval has passed since the last one.
pub fn health_check_due(interval_secs: Option<u64>, since_last_nanos: u128) -> (r: bool)
    ensures
        r == match interval_secs {
            Some(s) => since_last_nanos >= s * 1_000_000_000,
            None => false,
        },
{
    match interval_secs {
        Some(s) => {
            let limit: u128 = (s as u128) * 1_000_000_000u128;
            since_last_nanos >= limit
        },
        None => false,
    }
}

/// The health-check message: stage, items processed, items in all and
/// seconds since the start.
pub open spec fn health_check_text(stage: Seq<char>, processed: nat, total: nat, secs: nat) -> Seq<
    char,
> {
    "Health check ["@ + stage + "]: processed "@ + decimal(processed) + "/"@ + decimal(total)
        + " items in "@ + decimal(secs) + "s"@
}

/// The text of a health-check message.
pub fn health_check_message(stage: &str, processed: u64, total: u64, elapsed_secs: u64) -> (r:
    String)
    ensures
        r@ == health_check_text(stage@, processed as nat, total as nat, elapsed_secs as nat),
{
    let mut r = "Health check [".to_owned();
    r.append(stage);
    r.append("]: processed ");
    let p = u64_to_string(processed);
    r.append(p.as_str());
    r.append("/");
    let t = u64_to_string(total);
    r.append(t.as_str());
    r.append(" items in ");
    let e = u64_to_string(elapsed_secs);
    r.append(e.as_str());
    r.append("s");
    r
}

/// Whether a variable's text turns an option on: after trimming and in
/// ASCII lower case it is `1`, `true`, `yes` or `on`.
pub open spec fn truthy(value: Option<Seq<char>>) -> bool {
    match value {
        Some(v) => {
            let w = ascii_lower_spec(trim_spec(v));
            w == "1"@ || w == "true"@ || w == "yes"@ || w == "on"@
        },
        None => false,
    }
}

/// Whether the variable's text turns an option on.
pub fn is_truthy(value: Option<String>) -> (r: bool)
    ensures
        r == truthy(
            match value {
                Some(v) => Some(v@),
                None => None,
            },
        ),
{
    match value {
        Some(v) => {
            let t = trim_chars(v.as_str());
            let w = ascii_lowercase(&t);
            let one = chars_of("1");
            let tr = chars_of("true");
            let ye = chars_of("yes");
            let on = chars_of("on");
            chars_eq(&w, &one) || chars_eq(&w, &tr) || chars_eq(&w, &ye) || chars_eq(&w, &on)
        },
        None => false,
    }
}

/// A positive batch size from the variable's trimmed text, if it has one.
pub open spec fn positive_size(value: Option<Seq<char>>) -> Option<nat> {
    match value {
        Some(v) => match trimmed_number(v, usize::MAX as nat) {
            Some(n) => if n > 0 { Some(n) } else { None },
            None => None,
        },
        None => None,
    }
}

fn positive_size_exec(value: &Option<String>) -> (r: Option<usize>)
    ensures
        match positive_size(
            match value {
                Some(v) => Some(v@),
                None => None,
            },
        ) {
            Some(n) => r == Some(n as usize),
            None => r is None,
        },
{
    match value {
        Some(v) => {
            let t = trim(v.as_str());
            match parse_usize(t.as_str()) {
                Some(n) => if n > 0 { Some(n) } else { None },
                None => None,
            }
        },
        None => None,
    }
}

/// The number of rows written in one transaction: the variable's positive
/// number, else 1000.
pub fn batch_size(value: Option<String>) -> (r: usize)
    ensures
        r == match positive_size(
            match value {
                Some(v) => Some(v@),
                None => None,
            },
        ) {
            Some(n) => n,
            None => 1000,
        },
{
    match positive_size_exec(&value) {
        Some(n) => n,
        None => 1000,
    }
}

/// The number of image rows written in one transaction: the image
/// variable's positive number, else the general one's, else 1000.
pub fn img_batch_size(img_value: Option<String>, value: Option<String>) -> (r: usize)
    ensures
        r == match positive_size(
            match img_value {
                Some(v) => Some(v@),
                None => None,
            },
        ) {
            Some(n) => n,
            None => match positive_size(
                match value {
                    Some(v) => Some(v@),
                    None => None,
                },
            ) {
                Some(n) => n,
                None => 1000,
            },
        },
{
    match positive_size_exec(&img_value) {
        Some(n) => n,
        None => match positive_size_exec(&value) {
            Some(n) => n,
            None => 1000,
        },
    }
}

/// The number of songs on a page: the trimmed number in the variable, if it
/// reads as a `u32`.
pub fn pagination_offset(value: &str) -> (r: Option<u32>)
    ensures
        match trimmed_number(value@, u32::MAX as nat) {
            Some(n) => r == Some(n as u32),
            None => r is None,
        },
{
    let t = trim(value);
    parse_u32(t.as_str())
}

} // verus!
