use web_libusb::cmd::{progress_sender, DevId, ProgressUpdate};
use web_libusb::constants::{
    endpoint_is_out, to_unsigned, LIBUSB_CAP_HAS_CAPABILITY, LIBUSB_CAP_HAS_HID_ACCESS,
    LIBUSB_CAP_HAS_HOTPLUG, LIBUSB_CAP_SUPPORTS_DETACH_KERNEL_DRIVER,
};
use web_libusb::misc::{libusb_get_version, libusb_has_capability, memchr, strlen, strncpy};
use web_libusb::msgs::{
    ActiveConfigDescriptor, BulkTransferIn, BulkTransferOut, ClaimInterface, Cmd,
    ReleaseInterface, ResetDevice, SelectConfiguration,
};

#[test]
fn version_is_inert() {
    let v = libusb_get_version();
    assert_eq!((v.major, v.minor, v.micro, v.nano), (0, 0, 0, 0));
    assert_eq!(v.rc, "");
    assert_eq!(v.describe, "");
}

#[test]
fn only_the_capability_query_is_there() {
    assert_eq!(libusb_has_capability(LIBUSB_CAP_HAS_CAPABILITY), 1);
    assert_eq!(libusb_has_capability(LIBUSB_CAP_HAS_HOTPLUG), 0);
    assert_eq!(libusb_has_capability(LIBUSB_CAP_HAS_HID_ACCESS), 0);
    assert_eq!(libusb_has_capability(LIBUSB_CAP_SUPPORTS_DETACH_KERNEL_DRIVER), 0);
    assert_eq!(libusb_has_capability(u32::MAX), 0);
}

#[test]
fn memchr_finds_the_first_match_within_num() {
    let buf = [5u8, 7, 9, 7, 0];
    assert_eq!(memchr(&buf, 7, 5), Some(1));
    assert_eq!(memchr(&buf, 9, 5), Some(2));
    assert_eq!(memchr(&buf, 9, 2), None);
    assert_eq!(memchr(&buf, 0, 5), Some(4));
    assert_eq!(memchr(&buf, 1, 5), None);
    assert_eq!(memchr(&buf, 5, 0), None);
    // the value is cut to a byte
    assert_eq!(memchr(&buf, 0x107, 5), Some(1));
    assert_eq!(memchr(&buf, -251, 5), Some(0));
}

#[test]
fn strlen_counts_up_to_the_terminator() {
    assert_eq!(strlen(b"hello\0"), 5);
    assert_eq!(strlen(b"\0"), 0);
    assert_eq!(strlen(b"ab\0cd\0"), 2);
}

#[test]
fn strncpy_pads_with_zeros() {
    let mut dst = vec![0xffu8; 8];
    strncpy(&mut dst, b"abc\0zz", 6);
    assert_eq!(dst, vec![b'a', b'b', b'c', 0, 0, 0, 0xff, 0xff]);
}

#[test]
fn strncpy_of_a_long_string_leaves_no_terminator() {
    let mut dst = vec![0xffu8; 4];
    strncpy(&mut dst, b"abcdef\0", 3);
    assert_eq!(dst, vec![b'a', b'b', b'c', 0xff]);
    let mut dst = vec![0xffu8; 4];
    strncpy(&mut dst, b"abc", 3);
    assert_eq!(dst, vec![b'a', b'b', b'c', 0xff]);
    let mut dst = vec![0xffu8; 2];
    strncpy(&mut dst, b"abc\0", 0);
    assert_eq!(dst, vec![0xff, 0xff]);
    let mut dst = vec![0xffu8; 3];
    strncpy(&mut dst, b"\0", 3);
    assert_eq!(dst, vec![0, 0, 0]);
}

#[test]
fn direction_is_the_top_bit() {
    assert!(endpoint_is_out(0x00));
    assert!(endpoint_is_out(0x01));
    assert!(endpoint_is_out(0x7f));
    assert!(!endpoint_is_out(0x80));
    assert!(!endpoint_is_out(0x81));
    assert!(!endpoint_is_out(0xff));
}

#[test]
fn unsigned_reading_of_an_int() {
    assert_eq!(to_unsigned(0), 0);
    assert_eq!(to_unsigned(1), 1);
    assert_eq!(to_unsigned(i32::MAX), 0x7fff_ffff);
    assert_eq!(to_unsigned(-1), 0xffff_ffff);
    assert_eq!(to_unsigned(i32::MIN), 0x8000_0000);
}

#[test]
fn commands_wrap_their_requests() {
    assert_eq!(
        Cmd::from(BulkTransferOut { device: 1, endpoint: 2, data: &[3] }),
        Cmd::BulkTransferOut(BulkTransferOut { device: 1, endpoint: 2, data: &[3] })
    );
    assert_eq!(
        Cmd::from(BulkTransferIn { device: 1, endpoint: 0x82, length: 3 }),
        Cmd::BulkTransferIn(BulkTransferIn { device: 1, endpoint: 0x82, length: 3 })
    );
    assert_eq!(
        Cmd::from(SelectConfiguration { device: 1, config: 2 }),
        Cmd::SelectConfiguration(SelectConfiguration { device: 1, config: 2 })
    );
    assert_eq!(
        Cmd::from(ClaimInterface { device: 1, number: 2 }),
        Cmd::ClaimInterface(ClaimInterface { device: 1, number: 2 })
    );
    assert_eq!(
        Cmd::from(ReleaseInterface { device: 1, number: 2 }),
        Cmd::ReleaseInterface(ReleaseInterface { device: 1, number: 2 })
    );
    assert_eq!(Cmd::from(ResetDevice { device: 9 }), Cmd::ResetDevice(ResetDevice { device: 9 }));
    let cmd: Cmd = ActiveConfigDescriptor { device: 9 }.into();
    assert_eq!(cmd, Cmd::ActiveConfigDescriptor(ActiveConfigDescriptor { device: 9 }));
}

#[test]
fn progress_goes_out_on_every_sixth_callback() {
    let dev = DevId { bus_number: 1, address: 4 };
    let mut sender = progress_sender(dev, 100);
    let mut sent = Vec::new();
    for k in 0..14usize {
        if let Some(report) = sender.send(100 - k) {
            sent.push(report);
        }
    }
    assert_eq!(
        sent,
        vec![
            ProgressUpdate { dev, remaining: 100, total: 100 },
            ProgressUpdate { dev, remaining: 94, total: 100 },
            ProgressUpdate { dev, remaining: 88, total: 100 },
        ]
    );
}

#[test]
fn progress_always_goes_out_when_nothing_remains() {
    let dev = DevId { bus_number: 0, address: 0 };
    let mut sender = progress_sender(dev, 3);
    assert_eq!(sender.send(2), Some(ProgressUpdate { dev, remaining: 2, total: 3 }));
    assert_eq!(sender.send(1), None);
    assert_eq!(sender.send(0), Some(ProgressUpdate { dev, remaining: 0, total: 3 }));
    assert_eq!(sender.send(0), Some(ProgressUpdate { dev, remaining: 0, total: 3 }));
    // a report for that reason does not restart the count
    assert_eq!(sender.send(5), None);
    assert_eq!(sender.send(5), None);
    assert_eq!(sender.send(5), Some(ProgressUpdate { dev, remaining: 5, total: 3 }));
    assert_eq!(sender.send(5), None);
}
