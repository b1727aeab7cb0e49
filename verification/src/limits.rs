//! The bounds of a run: how long it may take and how many steps, from the command line, the
//! environment, or by default.

use vstd::prelude::*;
use vstd::string::StringExecFns;
use crate::text::decimal_text;
use crate::text::push_decimal;

verus! {

/// The time allowed where nothing else is said, in milliseconds.
pub const DEFAULT_TIMEOUT_MS: u64 = 2000;

/// What `str::parse::<u64>` makes of a text.
pub uninterp spec fn parsed_u64(text: Seq<char>) -> Option<u64>;

/// What `str::parse::<usize>` makes of a text.
pub uninterp spec fn parsed_usize(text: Seq<char>) -> Option<usize>;

/// Reads a number: this is `str::parse::<u64>`, with its error dropped. The result depends on
/// the text alone.
#[verifier::external_body]
fn parse_u64(text: &str) -> (number: Option<u64>)
    ensures
        number == parsed_u64(text@),
{
    text.parse::<u64>().ok()
}

/// Reads a number: this is `str::parse::<usize>`, with its error dropped. The result depends
/// on the text alone.
#[verifier::external_body]
fn parse_usize(text: &str) -> (number: Option<usize>)
    ensures
        number == parsed_usize(text@),
{
    text.parse::<usize>().ok()
}

/// The number that the flag gives, else the one that the environment's text holds, if any.
pub open spec fn chosen(flag: Option<u64>, env: Option<&str>) -> Option<u64> {
    match flag {
        Some(value) => Some(value),
        None => match env {
            Some(text) => parsed_u64(text@),
            None => None,
        },
    }
}

/// The step ceiling for a run: the flag, else the number in the environment's text, else none.
pub fn resolve_max_steps(flag: Option<u64>, env: Option<&str>) -> (max_steps: Option<u64>)
    ensures
        max_steps == chosen(flag, env),
{
    match flag {
        Some(value) => Some(value),
        None => match env {
            Some(text) => parse_u64(text),
            None => None,
        },
    }
}

/// The time allowed for a run in milliseconds: the flag, else the number in the environment's
/// text, else two seconds.
pub fn resolve_timeout_ms(flag: Option<u64>, env: Option<&str>) -> (timeout_ms: u64)
    ensures
        timeout_ms == match chosen(flag, env) {
            Some(value) => value,
            None => DEFAULT_TIMEOUT_MS,
        },
{
    match resolve_max_steps(flag, env) {
        Some(value) => value,
        None => DEFAULT_TIMEOUT_MS,
    }
}

/// The step ceiling of the interactive loop: the number in the environment's text, if it is
/// one.
pub fn env_max_steps(env: Option<&str>) -> (max_steps: Option<usize>)
    ensures
        max_steps == match env {
            Some(text) => parsed_usize(text@),
            None => None,
        },
{
    match env {
        Some(text) => parse_usize(text),
        None => None,
    }
}

/// The time allowed by the interactive loop in milliseconds: the number in the environment's
/// text, else two seconds.
pub fn env_timeout_ms(env: Option<&str>) -> (timeout_ms: usize)
    ensures
        timeout_ms == match env {
            Some(text) => match parsed_usize(text@) {
                Some(value) => value,
                None => DEFAULT_TIMEOUT_MS as usize,
            },
            None => DEFAULT_TIMEOUT_MS as usize,
        },
{
    match env_max_steps(env) {
        Some(value) => value,
        None => 2000,
    }
}

/// The message for a run that reached its step ceiling.
pub fn step_limit_message(limit: usize) -> (text: String)
    ensures
        text@ == "Execution aborted: step limit exceeded ("@ + decimal_text(limit as nat) + ")"@,
{
    let mut text = String::from_str("Execution aborted: step limit exceeded (");
    push_decimal(&mut text, limit);
    text.append(")");
    text
}

/// The message for a run that took too long, as the interactive loop words it.
pub fn repl_timeout_message(timeout_ms: usize) -> (text: String)
    ensures
        text@ == "Execution aborted: wall-clock timeout ("@ + decimal_text(timeout_ms as nat)
            + " ms)"@,
{
    let mut text = String::from_str("Execution aborted: wall-clock timeout (");
    push_decimal(&mut text, timeout_ms);
    text.append(" ms)");
    text
}

/// The message for a run that took too long, as the `read` command words it.
pub fn read_timeout_message(timeout_ms: usize) -> (text: String)
    ensures
        text@ == "Execution aborted: wall-clock timeout exceeded ("@ + decimal_text(
            timeout_ms as nat,
        ) + " ms)"@,
{
    let mut text = String::from_str("Execution aborted: wall-clock timeout exceeded (");
    push_decimal(&mut text, timeout_ms);
    text.append(" ms)");
    text
}

} // verus!
