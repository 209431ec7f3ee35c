//! The failures that the driver reports.

use vstd::prelude::*;

verus! {

/// Why an image could not be turned into a raster.
#[derive(Debug, Clone, Copy, PartialEq, Eq, Structural)]
pub enum ImageFailure {
    /// The bytes are not a well-formed image of the detected format.
    Decoding,
    /// The decoder reports a failure of encoding.
    Encoding,
    /// The image names dimensions or parameters that cannot be honoured.
    Parameter,
    /// Decoding would exceed the decoder's resource limits.
    Limits,
    /// The format, or a feature of it, is not supported.
    Unsupported,
    /// Reading the encoded bytes failed.
    Io,
    /// The pixel buffer does not match the stated geometry, or the geometry is
    /// empty.
    Geometry,
    /// Fitting the raster to the panel would take a buffer beyond what this
    /// machine can address.
    TooLarge,
}

/// Every failure of the driver, as a closed set.
#[derive(Debug, Clone, Copy, PartialEq, Eq, Structural)]
pub enum DriverError {
    /// An operation was asked for while no device is attached.
    NotConnected,
    /// No attached device carries the expected vendor and product identifiers.
    DeviceNotFound,
    /// The device was found but could not be opened, or its interface not claimed.
    ClaimFailed,
    /// The bus did not complete a transfer within the allowed time.
    TimedOut,
    /// A chunked transfer broke off; the field is the number of payload bytes
    /// that had been moved by then.
    PartialTransfer(usize),
    /// A device frame starts with a tag that names no message; the field is the tag.
    UnknownVariant(u8),
    /// A frame holds a byte that is outside its enumeration; the field is the byte.
    InvalidField(u8),
    /// An image could not be decoded.
    ImageDecodeError(ImageFailure),
    /// The device answered with a well-formed message of the wrong kind; the
    /// field is the tag of the message that arrived.
    UnexpectedMessage(u8),
    /// A name cannot be sent as a terminated byte string.
    EncodingError,
}

/// How a transfer on the bus failed, as the owner of the USB handle saw it.
#[derive(Debug, Clone, Copy, PartialEq, Eq, Structural)]
pub enum BusFailure {
    /// The transfer did not complete within the allowed time.
    TimedOut,
    /// The bus refused or broke off the transfer.
    Other,
}

} // verus!
