use vstd::prelude::*;

verus! {

/// Relies on std::time::SystemTime: reads the wall clock and reports it as
/// whole seconds since the Unix epoch (0 if the clock is set before the
/// epoch). The value depends on the machine's clock, so nothing is promised
/// of it; callers state what holds for every reading.
#[verifier::external_body]
pub(crate) fn now_seconds() -> u64 {
    std::time::SystemTime::now()
        .duration_since(std::time::UNIX_EPOCH)
        .map(|d| d.as_secs())
        .unwrap_or(0)
}

} // verus!
