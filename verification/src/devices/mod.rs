//! Synchronisation between the devices of one person.

pub mod exchange;
pub mod gc;
pub mod group_laws;
pub mod laws;
pub mod lww;
pub mod model;
pub mod pact_laws;
pub mod pairing;
pub mod peers;
pub mod record;
pub mod record_laws;
pub mod round_trip;
pub mod session;
pub mod snapshot;
pub mod status;
pub mod step_laws;
pub mod sync;
pub mod trust;
