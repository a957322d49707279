//! Protocol engine for the DHT11 single-wire temperature and humidity sensor.
//!
//! The engine is a state machine: it tells its driver what to do with the
//! line (set its direction, drive a level, sleep, sample the level) and is
//! told what happened, so that the decoding can be checked against a
//! simulated line as well as driven by a real GPIO pin.
pub mod frame;
pub mod line;
pub mod measure;
pub mod reading;

pub use line::{Level, Mode};
pub use measure::{Error, Measure};
pub use reading::{Action, Event, Reading};
