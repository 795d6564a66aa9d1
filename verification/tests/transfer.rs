use web_libusb::channel::{Channel, TransportError};
use web_libusb::constants::{
    LIBUSB_ERROR_ACCESS, LIBUSB_ERROR_BUSY, LIBUSB_ERROR_INTERRUPTED, LIBUSB_ERROR_INVALID_PARAM,
    LIBUSB_ERROR_IO, LIBUSB_ERROR_NOT_FOUND, LIBUSB_ERROR_NOT_SUPPORTED, LIBUSB_ERROR_OTHER,
    LIBUSB_SUCCESS,
};
use web_libusb::device::{init, libusb_get_device, Registry};
use web_libusb::msgs::{
    BulkTransferIn, BulkTransferInReply, BulkTransferOut, BulkTransferOutReply, ClaimInterface,
    Cmd, Data, Error, NullReply, ReleaseInterface, ResetDevice, SelectConfiguration,
};
use web_libusb::transfer::{
    bulk_transfer_request, claim_interface_request, libusb_bulk_transfer, libusb_claim_interface,
    libusb_release_interface, libusb_reset_device, libusb_set_configuration,
    release_interface_request, reset_device_request, set_configuration_request, BulkReply,
};

fn opened(id: u32) -> (Registry, usize) {
    let mut reg = Registry::new();
    let handle = init(&mut reg, id, (0x0451, 0xe012), Channel::new());
    (reg, handle)
}

fn awaiting(reg: &Registry, handle: usize) -> bool {
    reg.device(libusb_get_device(reg, handle)).comm.awaiting
}

#[test]
fn bulk_out_end_to_end() {
    let (mut reg, handle) = opened(1);
    let mut data = vec![0xAA, 0xBB];
    let cmd = bulk_transfer_request(&mut reg, handle, 0x01, &data, 2);
    assert_eq!(
        cmd,
        Cmd::BulkTransferOut(BulkTransferOut { device: 1, endpoint: 0x01, data: &[0xAA, 0xBB] })
    );
    assert!(awaiting(&reg, handle));
    let mut transferred = Some(0);
    let status = libusb_bulk_transfer(
        &mut reg,
        handle,
        0x01,
        &mut data,
        2,
        &mut transferred,
        1000,
        Ok(BulkReply::Out(BulkTransferOutReply(Ok(2)))),
    );
    assert_eq!(status, LIBUSB_SUCCESS);
    assert_eq!(transferred, Some(2));
    assert_eq!(data, vec![0xAA, 0xBB]);
    assert!(!awaiting(&reg, handle));
}

#[test]
fn bulk_in_end_to_end() {
    let (mut reg, handle) = opened(1);
    let mut data = vec![9, 9, 9, 9];
    let cmd = bulk_transfer_request(&mut reg, handle, 0x81, &data, 4);
    assert_eq!(cmd, Cmd::BulkTransferIn(BulkTransferIn { device: 1, endpoint: 0x81, length: 4 }));
    let host = [1u8, 2, 3];
    let mut transferred = Some(0);
    let status = libusb_bulk_transfer(
        &mut reg,
        handle,
        0x81,
        &mut data,
        4,
        &mut transferred,
        1000,
        Ok(BulkReply::In(BulkTransferInReply(Ok(Data(&host))))),
    );
    assert_eq!(status, LIBUSB_SUCCESS);
    assert_eq!(transferred, Some(3));
    assert_eq!(&data[..3], &[1, 2, 3]);
    assert_eq!(data[3], 9);
}

#[test]
fn bulk_in_drops_what_exceeds_the_length_asked_for() {
    let (mut reg, handle) = opened(1);
    let mut data = vec![0, 0, 7, 7];
    let host = [1u8, 2, 3, 4, 5];
    let mut transferred = Some(-1);
    let status = libusb_bulk_transfer(
        &mut reg,
        handle,
        0x81,
        &mut data,
        2,
        &mut transferred,
        0,
        Ok(BulkReply::In(BulkTransferInReply(Ok(Data(&host))))),
    );
    assert_eq!(status, LIBUSB_SUCCESS);
    assert_eq!(transferred, Some(2));
    assert_eq!(data, vec![1, 2, 7, 7]);
}

#[test]
fn bulk_in_of_nothing() {
    let (mut reg, handle) = opened(1);
    let mut data = vec![5, 5];
    let mut transferred = Some(-1);
    let status = libusb_bulk_transfer(
        &mut reg,
        handle,
        0x81,
        &mut data,
        2,
        &mut transferred,
        0,
        Ok(BulkReply::In(BulkTransferInReply(Ok(Data(&[]))))),
    );
    assert_eq!(status, LIBUSB_SUCCESS);
    assert_eq!(transferred, Some(0));
    assert_eq!(data, vec![5, 5]);
    let mut transferred = Some(-1);
    let status = libusb_bulk_transfer(
        &mut reg,
        handle,
        0x81,
        &mut data,
        0,
        &mut transferred,
        0,
        Ok(BulkReply::In(BulkTransferInReply(Ok(Data(&[1, 2]))))),
    );
    assert_eq!(status, LIBUSB_SUCCESS);
    assert_eq!(transferred, Some(0));
    assert_eq!(data, vec![5, 5]);
}

#[test]
fn bulk_without_a_place_for_the_count() {
    let (mut reg, handle) = opened(1);
    let mut data = vec![0; 4];
    let mut transferred = None;
    let status = libusb_bulk_transfer(
        &mut reg,
        handle,
        0x81,
        &mut data,
        4,
        &mut transferred,
        0,
        Ok(BulkReply::In(BulkTransferInReply(Ok(Data(&[8, 9]))))),
    );
    assert_eq!(status, LIBUSB_SUCCESS);
    assert_eq!(transferred, None);
    assert_eq!(data, vec![8, 9, 0, 0]);
}

#[test]
fn bulk_out_sends_only_the_length_given() {
    let (mut reg, handle) = opened(3);
    let data = vec![1, 2, 3, 4];
    let cmd = bulk_transfer_request(&mut reg, handle, 0x02, &data, 3);
    assert_eq!(
        cmd,
        Cmd::BulkTransferOut(BulkTransferOut { device: 3, endpoint: 0x02, data: &[1, 2, 3] })
    );
}

#[test]
fn bulk_failures_leave_buffer_and_count() {
    let (mut reg, handle) = opened(1);
    let mut data = vec![4, 4];
    let mut transferred = Some(77);
    let status = libusb_bulk_transfer(
        &mut reg,
        handle,
        0x81,
        &mut data,
        2,
        &mut transferred,
        0,
        Err(TransportError::Malformed),
    );
    assert_eq!(status, LIBUSB_ERROR_OTHER);
    assert_eq!(transferred, Some(77));
    assert_eq!(data, vec![4, 4]);
    let status = libusb_bulk_transfer(
        &mut reg,
        handle,
        0x81,
        &mut data,
        2,
        &mut transferred,
        0,
        Ok(BulkReply::In(BulkTransferInReply(Err(Error::Network)))),
    );
    assert_eq!(status, LIBUSB_ERROR_IO);
    assert_eq!(transferred, Some(77));
    assert_eq!(data, vec![4, 4]);
    let status = libusb_bulk_transfer(
        &mut reg,
        handle,
        0x01,
        &mut data,
        2,
        &mut transferred,
        0,
        Ok(BulkReply::Out(BulkTransferOutReply(Err(Error::Abort)))),
    );
    assert_eq!(status, LIBUSB_ERROR_INTERRUPTED);
    assert_eq!(transferred, Some(77));
}

#[test]
fn a_reply_of_the_other_direction_is_a_transport_failure() {
    let (mut reg, handle) = opened(1);
    let mut data = vec![4, 4];
    let mut transferred = Some(77);
    let status = libusb_bulk_transfer(
        &mut reg,
        handle,
        0x81,
        &mut data,
        2,
        &mut transferred,
        0,
        Ok(BulkReply::Out(BulkTransferOutReply(Ok(2)))),
    );
    assert_eq!(status, LIBUSB_ERROR_OTHER);
    let status = libusb_bulk_transfer(
        &mut reg,
        handle,
        0x01,
        &mut data,
        2,
        &mut transferred,
        0,
        Ok(BulkReply::In(BulkTransferInReply(Ok(Data(&[1]))))),
    );
    assert_eq!(status, LIBUSB_ERROR_OTHER);
    assert_eq!(transferred, Some(77));
    assert_eq!(data, vec![4, 4]);
}

#[test]
fn unit_commands_carry_device_and_argument() {
    let (mut reg, handle) = opened(42);
    assert_eq!(
        set_configuration_request(&mut reg, handle, 1),
        SelectConfiguration { device: 42, config: 1 }
    );
    assert!(awaiting(&reg, handle));
    assert_eq!(libusb_set_configuration(&mut reg, handle, Ok(NullReply(Ok(())))), LIBUSB_SUCCESS);
    assert!(!awaiting(&reg, handle));
    assert_eq!(
        claim_interface_request(&mut reg, handle, 0x102),
        ClaimInterface { device: 42, number: 2 }
    );
    assert_eq!(
        libusb_claim_interface(&mut reg, handle, Ok(NullReply(Err(Error::Security)))),
        LIBUSB_ERROR_ACCESS
    );
    assert_eq!(
        release_interface_request(&mut reg, handle, 3),
        ReleaseInterface { device: 42, number: 3 }
    );
    assert_eq!(
        libusb_release_interface(&mut reg, handle, Err(TransportError::Wait)),
        LIBUSB_ERROR_OTHER
    );
    assert_eq!(reset_device_request(&mut reg, handle), ResetDevice { device: 42 });
    assert_eq!(
        libusb_reset_device(&mut reg, handle, Ok(NullReply(Err(Error::InvalidState)))),
        LIBUSB_ERROR_BUSY
    );
    assert!(!awaiting(&reg, handle));
}

#[test]
fn every_host_error_has_its_code() {
    let (mut reg, handle) = opened(1);
    let cases = [
        (Error::NotFound, LIBUSB_ERROR_NOT_FOUND),
        (Error::Security, LIBUSB_ERROR_ACCESS),
        (Error::Network, LIBUSB_ERROR_IO),
        (Error::Abort, LIBUSB_ERROR_INTERRUPTED),
        (Error::InvalidState, LIBUSB_ERROR_BUSY),
        (Error::InvalidAccess, LIBUSB_ERROR_INVALID_PARAM),
        (Error::Unknown, LIBUSB_ERROR_NOT_SUPPORTED),
    ];
    for (error, code) in cases {
        assert_eq!(libusb_reset_device(&mut reg, handle, Ok(NullReply(Err(error)))), code);
        assert_eq!(i32::from(error), code);
        assert!(code < 0);
        assert_ne!(code, LIBUSB_ERROR_OTHER);
    }
    for (i, (_, a)) in cases.iter().enumerate() {
        for (_, b) in cases.iter().skip(i + 1) {
            assert_ne!(a, b);
        }
    }
}

#[test]
fn every_transport_failure_has_the_one_code() {
    let (mut reg, handle) = opened(1);
    for failure in [
        TransportError::NotArrived,
        TransportError::Wait,
        TransportError::Overrun,
        TransportError::Malformed,
    ] {
        assert_eq!(libusb_set_configuration(&mut reg, handle, Err(failure)), LIBUSB_ERROR_OTHER);
    }
}
