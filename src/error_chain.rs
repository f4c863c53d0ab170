use vstd::prelude::*;

use crate::text::{decimal, decimal_text};

verus! {

#[verifier::external_type_specification]
#[verifier::external_body]
pub struct ExAnyhowError(anyhow::Error);

/// Relies on anyhow's `Error::chain`: the message of each error of the cause
/// chain, beginning with the error itself, so there is at least one.
#[verifier::external_body]
fn chain_messages(error: &anyhow::Error) -> (r: Vec<String>)
    ensures
        r@.len() >= 1,
{
    let mut messages = Vec::new();
    for cause in error.chain() {
        messages.push(cause.to_string());
    }
    messages
}

/// Relies on anyhow's `Error::backtrace`: the backtrace captured with the
/// error, as text; it depends on the environment in which the error arose.
#[verifier::external_body]
fn backtrace_text(error: &anyhow::Error) -> (r: String) {
    error.backtrace().to_string()
}

/// The numbered lines of the messages: `n. message` for the `n`-th, from 1.
pub open spec fn numbered_lines(messages: Seq<Seq<char>>) -> Seq<char>
    decreases messages.len(),
{
    if messages.len() == 0 {
        Seq::empty()
    } else {
        numbered_lines(messages.drop_last()) + decimal(messages.len()) + ". "@ + messages.last()
            + "\n"@
    }
}

/// The report of a cause chain: its numbered messages, then its backtrace.
pub open spec fn error_chain_text(messages: Seq<Seq<char>>, backtrace: Seq<char>) -> Seq<char> {
    numbered_lines(messages) + "\nBacktrace:\n"@ + backtrace
}

/// The report of a cause chain given its messages and its backtrace.
pub fn render_error_chain(messages: &Vec<String>, backtrace: &str) -> (r: String)
    ensures
        r@ == error_chain_text(messages@.map_values(|m: String| m@), backtrace@),
{
    let ghost ms = messages@.map_values(|m: String| m@);
    let mut s = String::new();
    let mut i: usize = 0;
    while i < messages.len()
        invariant
            i <= messages@.len(),
            ms == messages@.map_values(|m: String| m@),
            s@ == numbered_lines(ms.take(i as int)),
        decreases messages.len() - i,
    {
        let number = decimal_text((i + 1) as u64);
        s.append(number.as_str());
        s.append(". ");
        s.append(messages[i].as_str());
        s.append("\n");
        proof {
            assert(ms.take(i + 1).drop_last() == ms.take(i as int));
            assert(ms.take(i + 1).last() == messages@[i as int]@);
        }
        i = i + 1;
    }
    assert(ms.take(ms.len() as int) == ms);
    s.append("\nBacktrace:\n");
    s.append(backtrace);
    s
}

/// The report of an error's cause chain for the log: each message numbered
/// from 1, then the backtrace.
pub fn format_error_chain(error: &anyhow::Error) -> (r: String)
    ensures
        exists|messages: Seq<Seq<char>>, backtrace: Seq<char>|
            messages.len() >= 1 && r@ == error_chain_text(messages, backtrace),
{
    let messages = chain_messages(error);
    let backtrace = backtrace_text(error);
    render_error_chain(&messages, backtrace.as_str())
}

} // verus!
