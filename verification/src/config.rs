//! Run-time settings read from the environment: the caller reads the
//! variables, these functions decide what they mean.

use vstd::prelude::*;
use crate::text::str_eq;
use crate::decimal::{parse_usize, spec_parse_usize};

verus! {

/// Verbose logging is on when `PIDF_VERBOSE_LOGS` is exactly `1`.
pub fn verbose_runtime_logs_enabled(value: Option<&str>) -> (r: bool)
    ensures
        r == (match value {
            Some(v) => v@ == seq!['1'],
            None => false,
        }),
{
    match value {
        Some(v) => {
            let r = str_eq(v, "1");
            proof {
                reveal_strlit("1");
                assert("1"@ =~= seq!['1']);
            }
            r
        },
        None => false,
    }
}

/// The number of PDF workers when the environment does not choose one:
/// the machine's parallelism clamped into `2..=8`, or 4 when it is unknown.
pub open spec fn spec_default_worker_count(available_parallelism: Option<usize>) -> usize {
    match available_parallelism {
        Some(n) => if n < 2 { 2 } else if n > 8 { 8 } else { n },
        None => 4,
    }
}

/// The number of PDF workers: `PIDF_WORKER_THREADS` when it holds a whole
/// number of at least 1, else the default.
pub open spec fn spec_worker_thread_count(env_value: Option<Seq<char>>, available_parallelism: Option<usize>) -> usize {
    match env_value {
        Some(v) => match spec_parse_usize(v) {
            Some(n) => if n >= 1 { n } else { spec_default_worker_count(available_parallelism) },
            None => spec_default_worker_count(available_parallelism),
        },
        None => spec_default_worker_count(available_parallelism),
    }
}

/// Chooses the number of PDF workers from the value of
/// `PIDF_WORKER_THREADS` (if set) and the machine's available parallelism
/// (if known).
pub fn worker_thread_count(env_value: Option<&str>, available_parallelism: Option<usize>) -> (r: usize)
    ensures
        r == spec_worker_thread_count(
            match env_value {
                Some(v) => Some(v@),
                None => None,
            },
            available_parallelism,
        ),
        r >= 1,
{
    let parsed = match env_value {
        Some(v) => parse_usize(v),
        None => None,
    };
    match parsed {
        Some(n) => if n >= 1 {
            return n;
        },
        None => {},
    }
    match available_parallelism {
        Some(n) => if n < 2 { 2 } else if n > 8 { 8 } else { n },
        None => 4,
    }
}

} // verus!
