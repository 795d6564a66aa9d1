use web_libusb::channel::Channel;
use web_libusb::constants::LIBUSB_SUCCESS;
use web_libusb::device::{
    init, libusb_close, libusb_device_handle, libusb_exit, libusb_get_device,
    libusb_get_device_descriptor, libusb_init, libusb_ref_device, libusb_unref_device, Registry,
};
use web_libusb::structs::libusb_device_descriptor;

#[test]
fn init_makes_a_device_with_one_handle() {
    let mut reg = Registry::new();
    let handle = init(&mut reg, 5, (0x0451, 0xe012), Channel::new());
    assert_eq!(handle, 1);
    assert!(reg.is_handle(handle));
    let dev = libusb_get_device(&reg, handle);
    assert_eq!(dev, 1);
    assert!(reg.is_device(dev));
    let device = reg.device(dev);
    assert_eq!(device.id, 5);
    assert_eq!(device.usb_id, (0x0451, 0xe012));
    assert_eq!(device.refs, 1);
    assert!(!device.comm.awaiting);
    assert_eq!(reg.device_count(), 1);
    assert_eq!(reg.handle_count(), 1);
}

#[test]
fn closing_the_last_handle_frees_the_device() {
    let mut reg = Registry::new();
    let handle = init(&mut reg, 5, (1, 2), Channel::new());
    let dev = libusb_get_device(&reg, handle);
    libusb_close(&mut reg, handle);
    assert!(!reg.is_handle(handle));
    assert!(!reg.is_device(dev));
    // addresses are not used again
    let again = init(&mut reg, 6, (1, 2), Channel::new());
    assert_eq!(again, 2);
    assert_eq!(libusb_get_device(&reg, again), 2);
}

#[test]
fn handles_may_share_a_device() {
    let mut reg = Registry::new();
    let first = init(&mut reg, 5, (1, 2), Channel::new());
    let dev = libusb_get_device(&reg, first);
    let second = libusb_device_handle::new(&mut reg, dev);
    assert_eq!(second, 2);
    assert_eq!(libusb_get_device(&reg, second), dev);
    assert_eq!(reg.device(dev).refs, 2);
    libusb_close(&mut reg, first);
    assert!(reg.is_device(dev));
    assert_eq!(reg.device(dev).refs, 1);
    assert!(reg.is_handle(second));
    libusb_close(&mut reg, second);
    assert!(!reg.is_device(dev));
}

#[test]
fn a_reference_of_the_caller_keeps_the_device() {
    let mut reg = Registry::new();
    let handle = init(&mut reg, 5, (1, 2), Channel::new());
    let dev = libusb_get_device(&reg, handle);
    assert_eq!(libusb_ref_device(&mut reg, dev), dev);
    assert_eq!(reg.device(dev).refs, 2);
    libusb_close(&mut reg, handle);
    assert!(reg.is_device(dev));
    assert_eq!(reg.device(dev).refs, 1);
    libusb_unref_device(&mut reg, dev);
    assert!(!reg.is_device(dev));
}

#[test]
fn unref_of_one_of_several_references() {
    let mut reg = Registry::new();
    let handle = init(&mut reg, 5, (1, 2), Channel::new());
    let dev = libusb_get_device(&reg, handle);
    libusb_ref_device(&mut reg, dev);
    libusb_ref_device(&mut reg, dev);
    assert_eq!(reg.device(dev).refs, 3);
    libusb_unref_device(&mut reg, dev);
    assert_eq!(reg.device(dev).refs, 2);
    assert!(reg.is_handle(handle));
}

#[test]
fn device_descriptor_holds_only_the_two_ids() {
    let mut reg = Registry::new();
    let handle = init(&mut reg, 5, (0x0451, 0xe022), Channel::new());
    let dev = libusb_get_device(&reg, handle);
    let mut desc = libusb_device_descriptor { bLength: 18, bNumConfigurations: 3, ..Default::default() };
    assert_eq!(libusb_get_device_descriptor(&reg, dev, &mut desc), LIBUSB_SUCCESS);
    assert_eq!(
        desc,
        libusb_device_descriptor {
            idVendor: 0x0451,
            idProduct: 0xe022,
            ..Default::default()
        }
    );
    assert_eq!(desc.bLength, 0);
    assert_eq!(desc.bNumConfigurations, 0);
    assert_eq!(desc.bcdUSB, 0);
}

#[test]
fn default_device_descriptor_is_all_zero() {
    let d = libusb_device_descriptor::default();
    assert_eq!(
        (d.bLength, d.bDescriptorType, d.bcdUSB, d.bDeviceClass, d.bDeviceSubClass),
        (0, 0, 0, 0, 0)
    );
    assert_eq!(
        (d.bDeviceProtocol, d.bMaxPacketSize0, d.idVendor, d.idProduct, d.bcdDevice),
        (0, 0, 0, 0, 0)
    );
    assert_eq!((d.iManufacturer, d.iProduct, d.iSerialNumber, d.bNumConfigurations), (0, 0, 0, 0));
}

#[test]
fn contexts_are_made_and_given_back() {
    let mut reg = Registry::new();
    let mut ctx = 0usize;
    assert_eq!(libusb_init(&mut reg, &mut ctx), LIBUSB_SUCCESS);
    assert_eq!(ctx, 1);
    assert!(reg.is_context(ctx));
    let mut other = 0usize;
    assert_eq!(libusb_init(&mut reg, &mut other), LIBUSB_SUCCESS);
    assert_eq!(other, 2);
    libusb_exit(&mut reg, ctx);
    assert!(!reg.is_context(ctx));
    assert!(reg.is_context(other));
    assert!(!reg.is_context(0));
    assert!(!reg.is_context(3));
    assert_eq!(reg.context_count(), 2);
}

#[test]
fn null_and_unknown_addresses_are_not_live() {
    let mut reg = Registry::new();
    assert!(!reg.is_device(0));
    assert!(!reg.is_handle(0));
    let handle = init(&mut reg, 5, (1, 2), Channel::new());
    assert!(!reg.is_device(2));
    assert!(!reg.is_handle(handle + 1));
}
