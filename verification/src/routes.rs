//! The health of the broker, as its health check reports it.

use vstd::prelude::*;

verus! {

/// The word for the health of the broker.
pub open spec fn health_word(arduino_healthy: bool, influxdb_healthy: bool) -> Seq<char> {
    if arduino_healthy && influxdb_healthy {
        "healthy"@
    } else {
        "unhealthy"@
    }
}

/// The status that the health check reports: `healthy` where both the device
/// and the store answered their own checks, `unhealthy` otherwise.
pub fn handle_health(arduino_healthy: bool, influxdb_healthy: bool) -> (status: &'static str)
    ensures
        status@ == health_word(arduino_healthy, influxdb_healthy),
{
    if arduino_healthy && influxdb_healthy {
        "healthy"
    } else {
        "unhealthy"
    }
}

} // verus!
