//! Settings of the broker: where the time-series store lives and which
//! serial device feeds it.

use vstd::prelude::*;

verus! {

/// Everything the broker is configured with.
pub struct ConfigSettings {
    pub influxdb: InfluxDBConfig,
    pub arduino: ArduinoConfig,
}

/// Connection settings of the time-series store.
pub struct InfluxDBConfig {
    pub url: String,
    pub bucket: String,
    pub org: String,
    pub auth_token: String,
}

/// Settings of the serial device that produces the readings.
pub struct ArduinoConfig {
    pub baud_rate: u32,
    pub timeout: u64,
    pub device_name: String,
}

} // verus!
