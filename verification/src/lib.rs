//! Verified core of the chandelier controller: the bulb wire protocol, the
//! i2c framing, topology validation and the driver's decisions.

pub mod bulb;
pub mod i2c;
pub mod server;
pub mod config;
pub mod driver;
pub mod topology;
pub mod wave;
