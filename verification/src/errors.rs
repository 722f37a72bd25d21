//! The closed set of failure kinds shared by the executor and the decoders.

use vstd::prelude::*;
use vstd::string::StringExecFns;

verus! {

/// Every way in which a command can fail.
#[derive(Copy, Clone, Debug, PartialEq, Eq, Structural)]
pub enum ErrorKind {
    /// The transport failed to write or read, also on the retry.
    I2CRead,
    /// The status byte is not one the protocol defines, or the payload is not valid UTF-8.
    MalformedResponse,
    /// A text could not be read back as a command.
    CommandParse,
    /// The payload does not have the shape that the command expects.
    ResponseParse,
    /// The device has not finished processing the command.
    PendingResponse,
    /// The device reported an error.
    DeviceErrorResponse,
    /// The device has nothing to send.
    NoDataExpectedResponse,
}

impl ErrorKind {
    /// What this kind of failure means, in words.
    pub open spec fn text(self) -> Seq<char> {
        match self {
            ErrorKind::I2CRead => "response was not obtainable"@,
            ErrorKind::MalformedResponse => "response is not a valid nul-terminated UTF-8 string"@,
            ErrorKind::CommandParse => "could not parse command"@,
            ErrorKind::ResponseParse => "could not parse response"@,
            ErrorKind::PendingResponse => "response was not yet available"@,
            ErrorKind::DeviceErrorResponse => "the device responded with an error"@,
            ErrorKind::NoDataExpectedResponse => "the device has no data to respond"@,
        }
    }

    /// What this kind of failure means, in words.
    pub fn to_string(&self) -> (out: String)
        ensures
            out@ == self.text(),
    {
        match self {
            ErrorKind::I2CRead => String::from_str("response was not obtainable"),
            ErrorKind::MalformedResponse => String::from_str(
                "response is not a valid nul-terminated UTF-8 string",
            ),
            ErrorKind::CommandParse => String::from_str("could not parse command"),
            ErrorKind::ResponseParse => String::from_str("could not parse response"),
            ErrorKind::PendingResponse => String::from_str("response was not yet available"),
            ErrorKind::DeviceErrorResponse => String::from_str(
                "the device responded with an error",
            ),
            ErrorKind::NoDataExpectedResponse => String::from_str(
                "the device has no data to respond",
            ),
        }
    }
}

/// A failure of the EC sensor: the kind of failure that it is.
#[derive(Debug, Copy, Clone, PartialEq, Eq)]
pub struct EcError {
    inner: ErrorKind,
}

impl View for EcError {
    type V = ErrorKind;

    /// The kind of failure.
    closed spec fn view(&self) -> ErrorKind {
        self.inner
    }
}

impl EcError {
    /// The kind of failure that this is.
    pub fn kind(&self) -> (kind: ErrorKind)
        ensures
            kind == self@,
    {
        self.inner
    }

    /// What the failure means, in words.
    pub fn to_string(&self) -> (out: String)
        ensures
            out@ == self@.text(),
    {
        self.inner.to_string()
    }
}

impl vstd::std_specs::convert::FromSpecImpl<ErrorKind> for EcError {
    open spec fn obeys_from_spec() -> bool {
        true
    }

    closed spec fn from_spec(kind: ErrorKind) -> EcError {
        EcError { inner: kind }
    }
}

impl From<ErrorKind> for EcError {
    fn from(kind: ErrorKind) -> (error: EcError)
        ensures
            error@ == kind,
    {
        EcError { inner: kind }
    }
}

} // verus!
