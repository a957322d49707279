//! The result of a reading, its errors, and the frame check.
use rppal::gpio::Error as GpioError;
use vstd::prelude::*;

verus! {

#[verifier::external_type_specification]
#[verifier::external_body]
pub struct ExGpioError(GpioError);

/// A temperature and humidity reading, in whole degrees Celsius and whole
/// percent of relative humidity.
#[derive(Debug, Clone, Copy, PartialEq, Eq, Structural)]
pub struct Measure {
    pub temperature: u8,
    pub humidity: u8,
}

impl Measure {
    pub fn new(temperature: u8, humidity: u8) -> (r: Measure)
        ensures
            r.temperature == temperature,
            r.humidity == humidity,
    {
        Measure { temperature, humidity }
    }

    pub fn temperature(&self) -> (r: u8)
        ensures
            r == self.temperature,
    {
        self.temperature
    }

    pub fn humidity(&self) -> (r: u8)
        ensures
            r == self.humidity,
    {
        self.humidity
    }
}

/// Why a reading produced no measurement.
#[derive(Debug)]
pub enum Error {
    /// The line driver reported a fault.
    Gpio(GpioError),
    /// The line stayed at one level for longer than the wait ceiling.
    TimeOut,
    /// The frame arrived whole but its checksum byte does not match.
    CheckSum,
}

impl From<GpioError> for Error {
    fn from(e: GpioError) -> (r: Error)
        ensures
            r == Error::Gpio(e),
    {
        Error::Gpio(e)
    }
}

impl vstd::std_specs::convert::FromSpecImpl<GpioError> for Error {
    open spec fn obeys_from_spec() -> bool {
        true
    }

    open spec fn from_spec(e: GpioError) -> Error {
        Error::Gpio(e)
    }
}

} // verus!
