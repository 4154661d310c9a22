//! The LPS25HB register map and the pure request/reply arithmetic of the
//! driver: request-byte formation and raw pressure decoding.

use vstd::prelude::*;

verus! {

/// Identification register of the sensor.
pub const WHO_AM_I: u8 = 0x0f;

/// First control register; written to configure the measurement mode.
pub const CTRL_REG1: u8 = 0x20;

/// Value written to `CTRL_REG1` to bring the device out of standby into
/// continuous measurement mode.
pub const WAKE_UP: u8 = 0x90;

/// Base address of the three pressure output registers (low byte first).
pub const P_ADRS: u8 = 0x28;

/// Identification code the sensor reports from `WHO_AM_I`.
pub const LPS25HB_DEVICE_CODE: u8 = 0xbd;

/// Bit set in a request byte to ask for a register read (rather than write).
pub const READ_BIT: u8 = 0x80;

/// Bit set in a request byte, together with `READ_BIT`, to ask the device to
/// auto-increment the register address across a multi-byte transfer.
pub const INCREMENT_BIT: u8 = 0x40;

/// Request byte that reads a single register.
pub fn read_request(address: u8) -> (request: u8)
    requires
        address < 0x80,
    ensures
        request == address | 0x80,
{
    address | READ_BIT
}

/// Request byte that starts a multi-byte read with address auto-increment.
pub fn multi_read_request(address: u8) -> (request: u8)
    requires
        address < 0x80,
    ensures
        request == address | 0xc0,
{
    let request = address | (READ_BIT | INCREMENT_BIT);
    proof {
        assert(address | (0x80u8 | 0x40u8) == address | 0xc0u8) by (bit_vector);
    }
    request
}

/// Whether an identification reply is the code the LPS25HB reports.
pub fn is_expected_device(code: u8) -> (r: bool)
    ensures
        r == (code == LPS25HB_DEVICE_CODE),
{
    code == LPS25HB_DEVICE_CODE
}

/// The raw pressure encoded by the three output register bytes: a 24-bit
/// quantity assembled low byte first, scaled down by 4096.
pub open spec fn decode_raw_spec(low: u8, mid: u8, high: u8) -> u32 {
    (((high as u32) << 16) | ((mid as u32) << 8) | (low as u32)) >> 12
}

/// Assembles the three pressure output bytes into the scaled raw reading.
pub fn decode_raw_pressure(low: u8, mid: u8, high: u8) -> (raw: u32)
    ensures
        raw == decode_raw_spec(low, mid, high),
{
    (((high as u32) << 16) | ((mid as u32) << 8) | (low as u32)) >> 12
}

/// The request frame for one pressure read: the multi-byte read request for
/// the output registers, then three placeholder bytes that the full-duplex
/// exchange overwrites with the replies.
pub open spec fn pressure_request_spec() -> Seq<u8> {
    seq![P_ADRS | 0xc0, 0u8, 0u8, 0u8]
}

/// Builds the 4-byte request frame for one pressure read.
pub fn pressure_request_frame() -> (frame: Vec<u8>)
    ensures
        frame@ == pressure_request_spec(),
{
    let mut frame: Vec<u8> = Vec::new();
    frame.push(multi_read_request(P_ADRS));
    frame.push(0u8);
    frame.push(0u8);
    frame.push(0u8);
    proof {
        assert(frame@ =~= pressure_request_spec());
    }
    frame
}

/// Decodes a completed pressure reply frame `[request echo, low, mid, high]`.
pub fn decode_pressure_reply(reply: &Vec<u8>) -> (raw: u32)
    requires
        reply@.len() == 4,
    ensures
        raw == decode_raw_spec(reply@[1], reply@[2], reply@[3]),
{
    decode_raw_pressure(reply[1], reply[2], reply[3])
}

} // verus!
