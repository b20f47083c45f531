use vstd::prelude::*;

verus! {

use crate::strings::{contains_seq, str_contains, dec_str, int_dec_str, u128_to_string,
    i64_to_string};

/// Name for the top-level integer field of the given name that a text
/// parses to: a pure function of the text and the field name alone.
pub uninterp spec fn json_int_field_of(s: Seq<char>, field: Seq<char>) -> Option<i64>;

/// Relies on serde_json::from_str::<serde_json::Value> together with
/// Value::get and Value::as_i64: the named top-level integer field of the
/// text when it parses as a JSON object carrying one, and nothing
/// otherwise — a deterministic function of the text and the field name.
#[verifier::external_body]
fn parse_top_level_int(body: &str, field: &str) -> (r: Option<i64>)
    ensures
        r == json_int_field_of(body@, field@),
{
    match serde_json::from_str::<serde_json::Value>(body) {
        Ok(v) => v.get(field).and_then(|c| c.as_i64()),
        Err(_) => None,
    }
}

/// The top-level integer `code` field of a response body, when the body
/// parses as an envelope carrying one.
pub open spec fn json_code_of(s: Seq<char>) -> Option<i64> {
    json_int_field_of(s, ("code")@)
}

/// The abstract outcome of one probe.
pub enum OutcomeModel {
    Success { ms: nat },
    Failure { reason: Seq<char> },
}

/// The outcome of one probe: a success carrying the elapsed milliseconds, or
/// a failure carrying a human-readable reason.
pub enum ProbeOutcome {
    Success { ms: u128 },
    Failure { reason: String },
}

impl View for ProbeOutcome {
    type V = OutcomeModel;

    open spec fn view(&self) -> OutcomeModel {
        match self {
            ProbeOutcome::Success { ms } => OutcomeModel::Success { ms: *ms as nat },
            ProbeOutcome::Failure { reason } => OutcomeModel::Failure { reason: reason@ },
        }
    }
}

/// An HTTP status in the success range.
pub open spec fn status_is_success(status: u16) -> bool {
    200 <= status < 300
}

/// The literal substring whose presence in the body counts as success code
/// zero, whatever the surrounding structure.
pub open spec fn code_zero_marker() -> Seq<char> {
    ("\"code\":0,")@
}

/// How one response is classified: a non-success status fails with the
/// status in the reason; a body with top-level code zero succeeds; a body
/// with another code fails with the code in the reason; an unparseable body
/// succeeds when it holds the code-zero marker and otherwise fails.
pub open spec fn classify_spec(status: u16, body: Seq<char>, ms: nat) -> OutcomeModel {
    if !status_is_success(status) {
        OutcomeModel::Failure { reason: ("status code: ")@ + dec_str(status as nat) }
    } else {
        match json_code_of(body) {
            Option::Some(code) => if code == 0 {
                OutcomeModel::Success { ms }
            } else {
                OutcomeModel::Failure { reason: ("code: ")@ + int_dec_str(code as int) }
            },
            Option::None => if contains_seq(body, code_zero_marker()) {
                OutcomeModel::Success { ms }
            } else {
                OutcomeModel::Failure { reason: ("parse error")@ }
            },
        }
    }
}

/// Classifies one response, as `classify_spec` states, carrying the elapsed
/// time into a success outcome.
pub fn classify_response(status: u16, body: &str, elapsed_ms: u128) -> (r: ProbeOutcome)
    ensures
        r@ == classify_spec(status, body@, elapsed_ms as nat),
{
    if !(200 <= status && status < 300) {
        let mut reason = String::from_str("status code: ");
        let digits = u128_to_string(status as u128);
        reason.append(digits.as_str());
        return ProbeOutcome::Failure { reason };
    }
    match parse_top_level_int(body, "code") {
        Option::Some(code) => {
            if code == 0 {
                ProbeOutcome::Success { ms: elapsed_ms }
            } else {
                let mut reason = String::from_str("code: ");
                let digits = i64_to_string(code);
                reason.append(digits.as_str());
                ProbeOutcome::Failure { reason }
            }
        },
        Option::None => {
            if str_contains(body, "\"code\":0,") {
                ProbeOutcome::Success { ms: elapsed_ms }
            } else {
                ProbeOutcome::Failure { reason: String::from_str("parse error") }
            }
        },
    }
}

} // verus!
