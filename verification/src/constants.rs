//! Native status codes and flag values of the transport surface.

use vstd::prelude::*;

verus! {

/// The C `int` of the target.
pub type c_int = i32;

/// The C `unsigned int` of the target.
pub type c_uint = u32;

pub const LIBUSB_SUCCESS: c_int = 0;

pub const LIBUSB_ERROR_IO: c_int = -1;

pub const LIBUSB_ERROR_INVALID_PARAM: c_int = -2;

pub const LIBUSB_ERROR_ACCESS: c_int = -3;

pub const LIBUSB_ERROR_NO_DEVICE: c_int = -4;

pub const LIBUSB_ERROR_NOT_FOUND: c_int = -5;

pub const LIBUSB_ERROR_BUSY: c_int = -6;

pub const LIBUSB_ERROR_TIMEOUT: c_int = -7;

pub const LIBUSB_ERROR_OVERFLOW: c_int = -8;

pub const LIBUSB_ERROR_PIPE: c_int = -9;

pub const LIBUSB_ERROR_INTERRUPTED: c_int = -10;

pub const LIBUSB_ERROR_NO_MEM: c_int = -11;

pub const LIBUSB_ERROR_NOT_SUPPORTED: c_int = -12;

/// The one code for every failure of the transport itself.
pub const LIBUSB_ERROR_OTHER: c_int = -99;

/// The bit of an endpoint address that gives the direction.
pub const LIBUSB_ENDPOINT_DIR_MASK: u8 = 0x80;

pub const LIBUSB_ENDPOINT_IN: u8 = 0x80;

pub const LIBUSB_ENDPOINT_OUT: u8 = 0x00;

/// "The capability query itself is available."
pub const LIBUSB_CAP_HAS_CAPABILITY: u32 = 0x0000;

pub const LIBUSB_CAP_HAS_HOTPLUG: u32 = 0x0001;

pub const LIBUSB_CAP_HAS_HID_ACCESS: u32 = 0x0100;

pub const LIBUSB_CAP_SUPPORTS_DETACH_KERNEL_DRIVER: u32 = 0x0101;

/// Whether `endpoint` moves data from the host to the device.
pub open spec fn is_out_endpoint(endpoint: u8) -> bool {
    endpoint & LIBUSB_ENDPOINT_DIR_MASK == LIBUSB_ENDPOINT_OUT
}

/// Tests the direction bit of an endpoint address.
pub fn endpoint_is_out(endpoint: u8) -> (out: bool)
    ensures
        out == is_out_endpoint(endpoint),
        out <==> endpoint < 0x80,
{
    assert((endpoint & 0x80u8 == 0x00u8) <==> endpoint < 0x80u8) by (bit_vector);
    endpoint & LIBUSB_ENDPOINT_DIR_MASK == LIBUSB_ENDPOINT_OUT
}

/// The 32 bits of `v` read without a sign.
pub open spec fn unsigned(v: c_int) -> int {
    if v >= 0 {
        v as int
    } else {
        v + 0x1_0000_0000
    }
}

/// Reads the bits of a C `int` as an `unsigned int`.
pub fn to_unsigned(v: c_int) -> (u: c_uint)
    ensures
        u == unsigned(v),
{
    let u: u32 = #[verifier::truncate] (v as u32);
    assert(v >= 0 ==> u == v) by (bit_vector)
        requires
            u == v as u32,
    ;
    assert(v < 0 ==> u == v + 0x1_0000_0000) by (bit_vector)
        requires
            u == v as u32,
    ;
    u
}

} // verus!
