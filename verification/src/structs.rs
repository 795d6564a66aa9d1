//! The descriptor records in the layout that the native surface hands out.
//! Where the native record holds a pointer, the record here holds the address
//! of a block in a `DescriptorHeap`; 0 is the null pointer.

use vstd::prelude::*;
use crate::constants::c_int;

verus! {

#[derive(Debug, Clone, Copy, PartialEq, Eq, Structural)]
pub struct libusb_config_descriptor {
    pub bLength: u8,
    pub bDescriptorType: u8,
    pub wTotalLength: u16,
    pub bNumInterfaces: u8,
    pub bConfigurationValue: u8,
    pub iConfiguration: u8,
    pub bmAttributes: u8,
    pub bMaxPower: u8,
    /// Address of the block with one `libusb_interface` for each interface.
    pub interface: usize,
    pub extra: usize,
    pub extra_length: c_int,
}

#[derive(Debug, Clone, Copy, PartialEq, Eq, Structural)]
pub struct libusb_interface {
    /// Address of the block with the alternate settings of this interface.
    pub altsetting: usize,
    pub num_altsetting: c_int,
}

#[derive(Debug, Clone, Copy, PartialEq, Eq, Structural)]
pub struct libusb_interface_descriptor {
    pub bLength: u8,
    pub bDescriptorType: u8,
    pub bInterfaceNumber: u8,
    pub bAlternateSetting: u8,
    pub bNumEndpoints: u8,
    pub bInterfaceClass: u8,
    pub bInterfaceSubClass: u8,
    pub bInterfaceProtocol: u8,
    pub iInterface: u8,
    /// Address of the block with the endpoints of this setting.
    pub endpoint: usize,
    pub extra: usize,
    pub extra_length: c_int,
}

#[derive(Debug, Clone, Copy, PartialEq, Eq, Structural)]
pub struct libusb_endpoint_descriptor {
    pub bLength: u8,
    pub bDescriptorType: u8,
    pub bEndpointAddress: u8,
    pub bmAttributes: u8,
    pub wMaxPacketSize: u16,
    pub bInterval: u8,
    pub bRefresh: u8,
    pub bSynchAddress: u8,
    pub extra: usize,
    pub extra_length: c_int,
}

#[derive(Debug, Clone, Copy, PartialEq, Eq, Structural)]
pub struct libusb_device_descriptor {
    pub bLength: u8,
    pub bDescriptorType: u8,
    pub bcdUSB: u16,
    pub bDeviceClass: u8,
    pub bDeviceSubClass: u8,
    pub bDeviceProtocol: u8,
    pub bMaxPacketSize0: u8,
    pub idVendor: u16,
    pub idProduct: u16,
    pub bcdDevice: u16,
    pub iManufacturer: u8,
    pub iProduct: u8,
    pub iSerialNumber: u8,
    pub bNumConfigurations: u8,
}

/// The device descriptor with every field zero.
pub open spec fn zero_device_descriptor() -> libusb_device_descriptor {
    libusb_device_descriptor {
        bLength: 0,
        bDescriptorType: 0,
        bcdUSB: 0,
        bDeviceClass: 0,
        bDeviceSubClass: 0,
        bDeviceProtocol: 0,
        bMaxPacketSize0: 0,
        idVendor: 0,
        idProduct: 0,
        bcdDevice: 0,
        iManufacturer: 0,
        iProduct: 0,
        iSerialNumber: 0,
        bNumConfigurations: 0,
    }
}

impl Default for libusb_device_descriptor {
    fn default() -> (desc: Self)
        ensures
            desc == zero_device_descriptor(),
    {
        libusb_device_descriptor {
            bLength: 0,
            bDescriptorType: 0,
            bcdUSB: 0,
            bDeviceClass: 0,
            bDeviceSubClass: 0,
            bDeviceProtocol: 0,
            bMaxPacketSize0: 0,
            idVendor: 0,
            idProduct: 0,
            bcdDevice: 0,
            iManufacturer: 0,
            iProduct: 0,
            iSerialNumber: 0,
            bNumConfigurations: 0,
        }
    }
}

} // verus!
