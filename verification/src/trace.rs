//! The log line of a stage trace sent by the viewer.

use vstd::prelude::*;
use vstd::string::*;
use crate::decimal::{decimal, push_decimal};

verus! {

/// `[PiDF][stage] ts=<timestamp> elapsed_ms=<elapsed> stage=<stage>
/// details=<details>`, with `n/a` for a missing elapsed time and `{}` for
/// missing details.
pub open spec fn spec_trace_stage_line(
    stage: Seq<char>,
    timestamp: Seq<char>,
    elapsed_ms: Option<u64>,
    details_json: Option<Seq<char>>,
) -> Seq<char> {
    "[PiDF][stage] ts="@ + timestamp + " elapsed_ms="@ + (match elapsed_ms {
        Some(ms) => decimal(ms as nat),
        None => "n/a"@,
    }) + " stage="@ + stage + " details="@ + (match details_json {
        Some(d) => d,
        None => "{}"@,
    })
}

/// Builds the log line of a stage trace.
pub fn trace_stage_line(stage: &str, timestamp: &str, elapsed_ms: Option<u64>, details_json: Option<&str>) -> (r: String)
    ensures
        r@ == spec_trace_stage_line(
            stage@,
            timestamp@,
            elapsed_ms,
            match details_json {
                Some(d) => Some(d@),
                None => None,
            },
        ),
{
    let mut line = String::from_str("[PiDF][stage] ts=");
    line.append(timestamp);
    line.append(" elapsed_ms=");
    match elapsed_ms {
        Some(ms) => push_decimal(&mut line, ms),
        None => line.append("n/a"),
    }
    line.append(" stage=");
    line.append(stage);
    line.append(" details=");
    match details_json {
        Some(d) => line.append(d),
        None => line.append("{}"),
    }
    line
}

} // verus!
