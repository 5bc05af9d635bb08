//! A Raspberry Pi GPIO pin driven as a byte-addressable LED device.
//!
//! `gpio` models the controller's register block and the two pin
//! operations on it; `device` holds the 4 KiB device buffer and the
//! read / write protocol that drives pin 17 from the bytes written.

pub mod error;
pub mod gpio;
pub mod device;

pub use error::Error;
pub use gpio::{PortView, Register, RegisterWrite, RpiGpioPort};
pub use device::{DeviceView, RustFile, RustMiscdevData};
