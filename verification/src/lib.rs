//! Driver for the 5.79 inch bi-colour e-paper panel (792 x 272 pixels, two
//! controller halves), with machine-checked contracts.
//!
//! The driver is handed its hardware as a value of a type that implements
//! [`hardware::Hardware`]: [`hardware::Recorded`] over a board of the caller,
//! or [`simulator::Simulator`]. An [`epd5in79::Epd5in79Impl`] is made from
//! it and turned into a view for one pixel encoding with `as_binary` or
//! `as_gray2`; the view draws pixels and refreshes the panel, and `release`
//! turns it back. Every operation on the hardware is stated as a plan, and
//! its contract says that the record of the hardware grew by a performance
//! of that plan.
//!
//! * [`color`]: the two pixel encodings and the default conversions between them.
//! * [`framebuffer`]: the four byte planes and pixel addressing.
//! * [`hardware`]: the lines and the bus that the driver is handed, and what it did on them.
//! * [`protocol`]: sequences of bus steps and what it means to have performed one.
//! * [`spi_interface`]: the transport, command and data transfers and the wait for the busy line.
//! * [`epd5in79`]: the panel driver, its refresh modes and its two colour views.
//! * [`simulator`]: hardware that only keeps a record, for trying the driver without a panel.
//! * [`error`]: what can go wrong.
pub mod color;
pub mod epd5in79;
pub mod error;
pub mod framebuffer;
pub mod hardware;
pub mod protocol;
pub mod simulator;
pub mod spi_interface;
