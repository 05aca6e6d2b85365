//! Classification of a single candidate.

use vstd::prelude::*;

verus! {

/// Shortest accepted candidate, in characters, after trimming.
pub const MIN_NAME_LEN: usize = 3;

/// Longest accepted candidate, in characters, after trimming.
pub const MAX_NAME_LEN: usize = 16;

/// What a probe found out about one candidate.
#[derive(Clone, Debug, PartialEq, Eq)]
pub enum ProbeResult {
    /// The service reported the name as free.
    Available,
    /// The name is taken, rejected by the service, or rejected locally.
    Unavailable,
    /// The request itself did not complete; carries the transport's message.
    Failed(String),
}

/// What to do with one candidate.
#[derive(Clone, Debug, PartialEq, Eq)]
pub enum ProbePlan {
    /// The candidate is classified without contacting the service.
    Decided(ProbeResult),
    /// The service must be asked about this trimmed name.
    Query(String),
}

/// The characters left once surrounding whitespace is removed.
pub uninterp spec fn trimmed(s: Seq<char>) -> Seq<char>;

/// Relies on `str::trim`: the slice without leading and trailing whitespace,
/// which depends on the characters of `s` alone.
#[verifier::external_body]
fn trim_str<'a>(s: &'a str) -> (r: &'a str)
    ensures
        r@ == trimmed(s@),
{
    s.trim()
}

/// A name whose length lies in the accepted range.
pub open spec fn name_len_ok(name: Seq<char>) -> bool {
    MIN_NAME_LEN <= name.len() <= MAX_NAME_LEN
}

/// Whether the candidate `c` is worth a network query.
pub open spec fn needs_query(c: Seq<char>) -> bool {
    name_len_ok(trimmed(c))
}

/// An HTTP status code in the 2xx class.
pub open spec fn is_success_code(code: u16) -> bool {
    200 <= code <= 299
}

/// The classification of a finished request: `Ok` holds the status code,
/// `Err` the transport's message.
pub open spec fn outcome_spec(response: Result<u16, String>) -> ProbeResult {
    match response {
        Ok(code) => if is_success_code(code) {
            ProbeResult::Available
        } else {
            ProbeResult::Unavailable
        },
        Err(msg) => ProbeResult::Failed(msg),
    }
}

impl ProbeResult {
    /// Whether this outcome counts towards the available total.
    pub fn is_available(&self) -> (r: bool)
        ensures
            r == (*self is Available),
    {
        match self {
            ProbeResult::Available => true,
            _ => false,
        }
    }
}

/// Decides whether `candidate` needs a query: after trimming, a name of
/// fewer than `MIN_NAME_LEN` or more than `MAX_NAME_LEN` characters is
/// unavailable without any request being made.
pub fn plan_probe(candidate: &str) -> (p: ProbePlan)
    ensures
        needs_query(candidate@) ==> (p matches ProbePlan::Query(q) && q@ == trimmed(candidate@)),
        !needs_query(candidate@) ==> p == ProbePlan::Decided(ProbeResult::Unavailable),
{
    let name = trim_str(candidate);
    let len = name.unicode_len();
    if len < MIN_NAME_LEN || len > MAX_NAME_LEN {
        ProbePlan::Decided(ProbeResult::Unavailable)
    } else {
        ProbePlan::Query(name.to_owned())
    }
}

/// Whether `code` is a success status (2xx).
pub fn is_success_status(code: u16) -> (r: bool)
    ensures
        r == is_success_code(code),
{
    200 <= code && code <= 299
}

/// Classifies a finished request: a 2xx status is available, any other
/// status unavailable, and a transport failure is kept as `Failed`.
pub fn probe_outcome(response: Result<u16, String>) -> (r: ProbeResult)
    ensures
        r == outcome_spec(response),
{
    match response {
        Ok(code) => if is_success_status(code) {
            ProbeResult::Available
        } else {
            ProbeResult::Unavailable
        },
        Err(msg) => ProbeResult::Failed(msg),
    }
}

} // verus!
