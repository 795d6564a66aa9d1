use web_libusb::channel::{Channel, TransportError};
use web_libusb::constants::{LIBUSB_ERROR_NOT_FOUND, LIBUSB_ERROR_OTHER, LIBUSB_SUCCESS};
use web_libusb::descriptor::{
    active_config_descriptor_request, build_config, libusb_free_config_descriptor,
    libusb_get_active_config_descriptor, DescriptorHeap,
};
use web_libusb::device::{init, libusb_get_device, Registry};
use web_libusb::msgs::{
    ActiveConfigDescriptor, ActiveConfigDescriptorReply, Error, USBAlternateInterface,
    USBConfiguration, USBEndpoint,
};

fn setting(alt: u8, endpoints: &[(u8, u16)]) -> USBAlternateInterface {
    USBAlternateInterface {
        alternate_setting: alt,
        interface_class: 0xff,
        interface_subclass: alt + 1,
        interface_protocol: alt + 2,
        endpoints: endpoints
            .iter()
            .map(|&(address, packet_size)| USBEndpoint { address, packet_size })
            .collect(),
    }
}

fn sample() -> USBConfiguration {
    USBConfiguration {
        configuration_value: 1,
        interfaces: vec![
            vec![setting(0, &[(0x81, 64), (0x01, 512)]), setting(1, &[])],
            vec![setting(0, &[(0x82, 8)])],
        ],
    }
}

#[test]
fn build_lays_blocks_out_from_the_endpoints_up() {
    let mut heap = DescriptorHeap::new();
    let config = build_config(&mut heap, &sample());
    // endpoints(0,0)=1, endpoints(0,1)=2, settings(0)=3, endpoints(1,0)=4,
    // settings(1)=5, interfaces=6, config=7
    assert_eq!(config, 7);
    assert_eq!(heap.len(), 7);
    assert_eq!(heap.live_count(), 7);

    let root = heap.config(config).unwrap();
    assert_eq!(root.bConfigurationValue, 1);
    assert_eq!(root.bNumInterfaces, 2);
    assert_eq!(root.interface, 6);
    assert_eq!(root.bLength, 0);
    assert_eq!(root.wTotalLength, 0);
    assert_eq!(root.extra, 0);

    let interfaces = heap.interfaces(6).unwrap();
    assert_eq!(interfaces.len(), 2);
    assert_eq!(interfaces[0].altsetting, 3);
    assert_eq!(interfaces[0].num_altsetting, 2);
    assert_eq!(interfaces[1].altsetting, 5);
    assert_eq!(interfaces[1].num_altsetting, 1);

    let settings = heap.altsettings(3).unwrap();
    assert_eq!(settings.len(), 2);
    assert_eq!(settings[0].bAlternateSetting, 0);
    assert_eq!(settings[0].bNumEndpoints, 2);
    assert_eq!(settings[0].bInterfaceClass, 0xff);
    assert_eq!(settings[0].bInterfaceSubClass, 1);
    assert_eq!(settings[0].bInterfaceProtocol, 2);
    assert_eq!(settings[0].endpoint, 1);
    assert_eq!(settings[1].bAlternateSetting, 1);
    assert_eq!(settings[1].bNumEndpoints, 0);
    assert_eq!(settings[1].endpoint, 2);

    let endpoints = heap.endpoints(1).unwrap();
    assert_eq!(endpoints.len(), 2);
    assert_eq!(endpoints[0].bEndpointAddress, 0x81);
    assert_eq!(endpoints[0].wMaxPacketSize, 64);
    assert_eq!(endpoints[1].bEndpointAddress, 0x01);
    assert_eq!(endpoints[1].wMaxPacketSize, 512);
    assert_eq!(endpoints[0].bInterval, 0);
    assert!(heap.endpoints(2).unwrap().is_empty());
    assert_eq!(heap.endpoints(4).unwrap()[0].bEndpointAddress, 0x82);
    assert_eq!(heap.endpoints(4).unwrap()[0].wMaxPacketSize, 8);
}

#[test]
fn walk_meets_blocks_in_reverse_of_build_order() {
    let mut heap = DescriptorHeap::new();
    let config = build_config(&mut heap, &sample());
    assert_eq!(heap.walk(config), Some(vec![7, 6, 5, 4, 3, 2, 1]));
}

#[test]
fn build_then_free_leaks_nothing() {
    let mut heap = DescriptorHeap::new();
    let first = build_config(&mut heap, &sample());
    let kept = build_config(&mut heap, &sample());
    assert_eq!(heap.live_count(), 14);
    libusb_free_config_descriptor(&mut heap, first);
    assert_eq!(heap.live_count(), 7);
    for p in 1..=7 {
        assert!(!heap.is_live(p));
    }
    for p in 8..=14 {
        assert!(heap.is_live(p));
    }
    // the tree that was kept is untouched
    assert_eq!(heap.walk(kept), Some(vec![14, 13, 12, 11, 10, 9, 8]));
    assert_eq!(heap.config(kept).unwrap().bNumInterfaces, 2);
    libusb_free_config_descriptor(&mut heap, kept);
    assert_eq!(heap.live_count(), 0);
    // addresses are not handed out again
    assert_eq!(heap.len(), 14);
}

#[test]
fn a_freed_tree_is_no_tree() {
    let mut heap = DescriptorHeap::new();
    let config = build_config(&mut heap, &sample());
    libusb_free_config_descriptor(&mut heap, config);
    assert_eq!(heap.walk(config), None);
    assert_eq!(heap.config(config), None);
    assert!(heap.interfaces(6).is_none());
    assert_eq!(heap.walk(0), None);
    assert_eq!(heap.walk(99), None);
}

#[test]
fn walk_rejects_an_address_that_is_no_root() {
    let mut heap = DescriptorHeap::new();
    let _ = build_config(&mut heap, &sample());
    assert_eq!(heap.walk(6), None);
    assert_eq!(heap.walk(1), None);
}

#[test]
fn configuration_without_interfaces_takes_two_blocks() {
    let mut heap = DescriptorHeap::new();
    let msg = USBConfiguration { configuration_value: 9, interfaces: vec![] };
    let config = build_config(&mut heap, &msg);
    assert_eq!(config, 2);
    assert_eq!(heap.config(2).unwrap().bNumInterfaces, 0);
    assert_eq!(heap.config(2).unwrap().bConfigurationValue, 9);
    assert_eq!(heap.config(2).unwrap().interface, 1);
    assert!(heap.interfaces(1).unwrap().is_empty());
    assert_eq!(heap.walk(config), Some(vec![2, 1]));
    libusb_free_config_descriptor(&mut heap, config);
    assert_eq!(heap.live_count(), 0);
}

#[test]
fn endpoint_count_is_cut_to_one_byte() {
    let mut heap = DescriptorHeap::new();
    let many: Vec<(u8, u16)> = (0..300).map(|i| ((i % 256) as u8, i as u16)).collect();
    let msg = USBConfiguration { configuration_value: 1, interfaces: vec![vec![setting(0, &many)]] };
    let config = build_config(&mut heap, &msg);
    assert_eq!(config, 4);
    let settings = heap.altsettings(2).unwrap();
    assert_eq!(settings[0].bNumEndpoints, 44);
    assert_eq!(heap.endpoints(1).unwrap().len(), 300);
    assert_eq!(heap.endpoints(1).unwrap()[299].wMaxPacketSize, 299);
    libusb_free_config_descriptor(&mut heap, config);
    assert_eq!(heap.live_count(), 0);
}

fn device(reg: &mut Registry) -> usize {
    let handle = init(reg, 7, (0x0451, 0xe012), Channel::new());
    libusb_get_device(reg, handle)
}

#[test]
fn active_config_round_trip_builds_the_tree() {
    let mut reg = Registry::new();
    let dev = device(&mut reg);
    let mut heap = DescriptorHeap::new();
    let cmd = active_config_descriptor_request(&mut reg, dev);
    assert_eq!(cmd, ActiveConfigDescriptor { device: 7 });
    assert!(reg.device(dev).comm.awaiting);
    let mut config_ptr = 0usize;
    let status = libusb_get_active_config_descriptor(
        &mut reg,
        &mut heap,
        dev,
        &mut config_ptr,
        Ok(ActiveConfigDescriptorReply(Ok(sample()))),
    );
    assert_eq!(status, LIBUSB_SUCCESS);
    assert_eq!(config_ptr, 7);
    assert!(!reg.device(dev).comm.awaiting);
    assert_eq!(heap.live_count(), 7);
    libusb_free_config_descriptor(&mut heap, config_ptr);
    assert_eq!(heap.live_count(), 0);
}

#[test]
fn active_config_failures_build_nothing() {
    let mut reg = Registry::new();
    let dev = device(&mut reg);
    let mut heap = DescriptorHeap::new();
    let mut config_ptr = 123usize;
    let status = libusb_get_active_config_descriptor(
        &mut reg,
        &mut heap,
        dev,
        &mut config_ptr,
        Ok(ActiveConfigDescriptorReply(Err(Error::NotFound))),
    );
    assert_eq!(status, LIBUSB_ERROR_NOT_FOUND);
    assert_eq!(config_ptr, 123);
    assert_eq!(heap.len(), 0);
    let status = libusb_get_active_config_descriptor(
        &mut reg,
        &mut heap,
        dev,
        &mut config_ptr,
        Err(TransportError::Malformed),
    );
    assert_eq!(status, LIBUSB_ERROR_OTHER);
    assert_eq!(config_ptr, 123);
    assert_eq!(heap.len(), 0);
    assert!(!reg.device(dev).comm.awaiting);
}
