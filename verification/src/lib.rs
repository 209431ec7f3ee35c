//! Host-side driver core for a USB-attached e-paper desk display.
//!
//! The crate holds everything that can be decided without touching the bus: the
//! fixed-size wire frames, the chunking of payloads into data frames, the
//! conversion of a raster image into the panel's one-bit-per-pixel format, the
//! connection state machine, and the frame sequences of each device operation.
//! The caller owns the USB handle and moves the frames.

pub mod actions;
pub mod connection;
pub mod epdimage;
pub mod error;
pub mod messages;
pub mod page;
pub mod transport;

pub use connection::UsbConnection;
pub use epdimage::EpdImage;
pub use epdimage::EpdImageFormat;
pub use epdimage::EPD_HEIGHT;
pub use epdimage::EPD_WIDTH;
pub use error::DriverError;
pub use messages::DeviceMessage;
pub use messages::HostMessage;
pub use page::DeviceStatus;
pub use page::EpdPage;
