//! Aggregation of per-peer outcomes. The driver launches one independent
//! handshake attempt per peer and collects one `HandshakeOutcome` for each;
//! `summarize` turns the collected outcomes into one report line per peer,
//! success or failure, in the order they were collected.

use vstd::prelude::*;

use crate::error::P2PHandshake;

verus! {

/// What one peer's attempt produced: the peer's address on success, or its
/// failure tagged with that address.
#[derive(Clone, Debug, PartialEq, Eq)]
pub enum HandshakeOutcome {
    Success(String),
    Failure(P2PHandshake),
}

impl HandshakeOutcome {
    /// Whether the attempt succeeded.
    pub fn is_success(&self) -> (r: bool)
        ensures
            r == self is Success,
    {
        match self {
            HandshakeOutcome::Success(_) => true,
            HandshakeOutcome::Failure(_) => false,
        }
    }
}

/// The report line one outcome produces.
pub open spec fn report_line(o: HandshakeOutcome) -> Seq<char> {
    match o {
        HandshakeOutcome::Success(addr) => "[successful] ["@ + addr@ + "]"@,
        HandshakeOutcome::Failure(h) => "[failed] ["@ + h.address@ + "] error: "@ + h.message@,
    }
}

/// Builds the report line of one outcome.
pub fn format_outcome(o: &HandshakeOutcome) -> (r: String)
    ensures
        r@ == report_line(*o),
{
    match o {
        HandshakeOutcome::Success(addr) => {
            let mut line = String::from_str("[successful] [");
            line.append(addr.as_str());
            line.append("]");
            line
        },
        HandshakeOutcome::Failure(h) => {
            let mut line = String::from_str("[failed] [");
            line.append(h.address.as_str());
            line.append("] error: ");
            line.append(h.message.as_str());
            line
        },
    }
}

/// Turns the collected outcomes into the report: exactly one line per peer,
/// in collection order, each line determined by its own outcome alone — no
/// peer's failure changes another's line.
pub fn summarize(outcomes: &Vec<HandshakeOutcome>) -> (report: Vec<String>)
    ensures
        report@.len() == outcomes@.len(),
        forall|i: int|
            0 <= i < outcomes@.len() ==> #[trigger] report@[i]@ == report_line(outcomes@[i]),
{
    let n = outcomes.len();
    let mut report: Vec<String> = Vec::new();
    let mut i: usize = 0;
    while i < n
        invariant
            i <= n,
            n == outcomes@.len(),
            report@.len() == i,
            forall|j: int|
                0 <= j < i ==> #[trigger] report@[j]@ == report_line(outcomes@[j]),
        decreases n - i,
    {
        let line = format_outcome(&outcomes[i]);
        report.push(line);
        i = i + 1;
    }
    report
}

} // verus!
