//! Driver logic for an LPS25HB barometric pressure sensor on a 4-wire
//! synchronous serial bus (SPI) with a dedicated chip-select line.
//!
//! The register protocol (request framing, reply decoding, the
//! initialization decision) is verified here against an abstract bus
//! interface; binding that interface to concrete hardware is left to the
//! surrounding program.

pub mod bus;
pub mod driver;
pub mod protocol;
pub mod sim;
