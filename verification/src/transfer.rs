//! The calls of the surface that take one round trip to the host. Each of
//! them comes in two halves around the round trip: the first says what is
//! posted, the second takes the reply and says what the caller gets. Between
//! the two the channel of the device is busy.

use vstd::prelude::*;
use vstd::slice::slice_subrange;
use crate::channel::{Channel, TransportError};
use crate::constants::{
    c_int, c_uint, endpoint_is_out, is_out_endpoint, LIBUSB_ERROR_OTHER, LIBUSB_SUCCESS,
};
use crate::device::{libusb_device, libusb_get_device, Registry, RegistryView};
use crate::msgs::{
    error_code, lemma_error_code_total_and_distinct, BulkTransferIn, BulkTransferInReply,
    BulkTransferOut, BulkTransferOutReply, ClaimInterface, Cmd, Data, NullReply, ReleaseInterface,
    ResetDevice, SelectConfiguration,
};

verus! {

/// The registry `before` with the channel of the device at `dev` busy or
/// free as `awaiting` says, and all else as it was.
pub open spec fn with_awaiting(before: RegistryView, dev: usize, awaiting: bool) -> RegistryView {
    before.with_device(
        dev,
        Some(
            libusb_device {
                comm: Channel { awaiting },
                ..before.device(dev)
            },
        ),
    )
}

/// Marks the channel of the device at `dev` as busy and hands back the
/// device's number at the host.
pub(crate) fn begin(reg: &mut Registry, dev: usize) -> (id: u32)
    requires
        old(reg)@.device_live(dev),
        !old(reg)@.device(dev).comm.awaiting,
    ensures
        id == old(reg)@.device(dev).id,
        final(reg)@ == with_awaiting(old(reg)@, dev, true),
        old(reg)@.wf() ==> final(reg)@.wf(),
{
    let mut device = reg.device(dev);
    device.comm.post();
    reg.set_device(dev, device);
    proof {
        if old(reg)@.wf() {
            lemma_awaiting_keeps_wf(old(reg)@, dev, true);
        }
    }
    device.id
}

/// Marks the channel of the device at `dev` as free again.
pub(crate) fn end(reg: &mut Registry, dev: usize)
    requires
        old(reg)@.device_live(dev),
    ensures
        final(reg)@ == with_awaiting(old(reg)@, dev, false),
        old(reg)@.wf() ==> final(reg)@.wf(),
{
    let mut device = reg.device(dev);
    device.comm.awaiting = false;
    reg.set_device(dev, device);
    proof {
        if old(reg)@.wf() {
            lemma_awaiting_keeps_wf(old(reg)@, dev, false);
        }
    }
}

/// The status for a reply that hands nothing back: success, the code of the
/// host's error, or the one code for a round trip that gave no reply.
pub open spec fn null_status(reply: Result<NullReply, TransportError>) -> c_int {
    match reply {
        Ok(NullReply(Ok(()))) => LIBUSB_SUCCESS,
        Ok(NullReply(Err(e))) => error_code(e),
        Err(_) => LIBUSB_ERROR_OTHER,
    }
}

fn null_reply_status(reply: Result<NullReply, TransportError>) -> (status: c_int)
    ensures
        status == null_status(reply),
{
    match reply {
        Ok(reply) => match reply.0 {
            Ok(()) => LIBUSB_SUCCESS,
            Err(e) => e.into(),
        },
        Err(_) => LIBUSB_ERROR_OTHER,
    }
}

/// The reply to a bulk transfer: that of a write or that of a read.
#[derive(Debug, Clone, Copy, PartialEq, Eq)]
pub enum BulkReply<'a> {
    Out(BulkTransferOutReply),
    In(BulkTransferInReply<'a>),
}

/// What a bulk transfer on `endpoint` posts: for an OUT endpoint a write of
/// the first `length` bytes of the buffer, for an IN endpoint a read of up to
/// `length` bytes.
pub open spec fn is_bulk_command(
    cmd: Cmd,
    id: u32,
    endpoint: u8,
    data: Seq<u8>,
    length: c_int,
) -> bool {
    if is_out_endpoint(endpoint) {
        &&& cmd matches Cmd::BulkTransferOut(out)
        &&& out.device == id
        &&& out.endpoint == endpoint
        &&& out.data@ == data.subrange(0, length as int)
    } else {
        cmd == Cmd::BulkTransferIn(BulkTransferIn { device: id, endpoint, length: length as usize })
    }
}

/// First half of a bulk transfer: the command to post for a transfer of
/// `length` bytes between `endpoint` and the buffer `data`.
pub fn bulk_transfer_request<'a>(
    reg: &mut Registry,
    handle: usize,
    endpoint: u8,
    data: &'a [u8],
    length: c_int,
) -> (cmd: Cmd<'a>)
    requires
        old(reg)@.wf(),
        old(reg)@.handle_live(handle),
        !old(reg)@.device(old(reg)@.handle(handle).device).comm.awaiting,
        0 <= length <= data@.len(),
    ensures
        is_bulk_command(
            cmd,
            old(reg)@.device(old(reg)@.handle(handle).device).id,
            endpoint,
            data@,
            length,
        ),
        final(reg)@ == with_awaiting(old(reg)@, old(reg)@.handle(handle).device, true),
        final(reg)@.wf(),
{
    let dev = libusb_get_device(reg, handle);
    proof {
        assert(old(reg)@.handles[handle - 1] is Some);
    }
    let device = begin(reg, dev);
    if endpoint_is_out(endpoint) {
        Cmd::BulkTransferOut(
            BulkTransferOut { device, endpoint, data: slice_subrange(data, 0, length as usize) },
        )
    } else {
        Cmd::BulkTransferIn(BulkTransferIn { device, endpoint, length: length as usize })
    }
}

/// The status of a bulk transfer on `endpoint` that got `reply`. A reply of
/// the other direction is no reply to this transfer.
pub open spec fn bulk_status(endpoint: u8, reply: Result<BulkReply, TransportError>) -> c_int {
    match reply {
        Ok(BulkReply::Out(BulkTransferOutReply(r))) => if is_out_endpoint(endpoint) {
            match r {
                Ok(_) => LIBUSB_SUCCESS,
                Err(e) => error_code(e),
            }
        } else {
            LIBUSB_ERROR_OTHER
        },
        Ok(BulkReply::In(BulkTransferInReply(r))) => if !is_out_endpoint(endpoint) {
            match r {
                Ok(_) => LIBUSB_SUCCESS,
                Err(e) => error_code(e),
            }
        } else {
            LIBUSB_ERROR_OTHER
        },
        Err(_) => LIBUSB_ERROR_OTHER,
    }
}

/// The number of bytes that a successful bulk transfer moved, as the caller
/// is told it: for a write the count in the reply, for a read the smaller of
/// the length asked for and the length of what came.
pub open spec fn bulk_count(length: c_int, reply: Result<BulkReply, TransportError>) -> c_int {
    match reply {
        Ok(BulkReply::Out(BulkTransferOutReply(Ok(size)))) => size as c_int,
        Ok(BulkReply::In(BulkTransferInReply(Ok(Data(bytes))))) => if bytes@.len() < length {
            bytes@.len() as c_int
        } else {
            length
        },
        _ => 0,
    }
}

/// The caller's buffer after a bulk transfer: a successful read puts the
/// first `bulk_count` bytes of what came at its front; nothing else changes
/// it.
pub open spec fn bulk_buffer(
    endpoint: u8,
    before: Seq<u8>,
    length: c_int,
    reply: Result<BulkReply, TransportError>,
) -> Seq<u8> {
    match reply {
        Ok(BulkReply::In(BulkTransferInReply(Ok(Data(bytes))))) => if !is_out_endpoint(endpoint) {
            let n = bulk_count(length, reply) as int;
            bytes@.subrange(0, n) + before.subrange(n, before.len() as int)
        } else {
            before
        },
        _ => before,
    }
}

/// Second half of a bulk transfer: takes the reply of the round trip. On
/// success the count of bytes moved goes to `transferred`, unless the caller
/// gave no place for it (`None`), and a read has put its bytes into `data`;
/// bytes that came beyond the length asked for are dropped without an error.
/// On any failure `data` and `transferred` stay as they were.
pub fn libusb_bulk_transfer<'r>(
    reg: &mut Registry,
    handle: usize,
    endpoint: u8,
    data: &mut Vec<u8>,
    length: c_int,
    transferred: &mut Option<c_int>,
    timeout: c_uint,
    reply: Result<BulkReply<'r>, TransportError>,
) -> (status: c_int)
    requires
        old(reg)@.wf(),
        old(reg)@.handle_live(handle),
        0 <= length <= old(data)@.len(),
    ensures
        status == bulk_status(endpoint, reply),
        final(reg)@ == with_awaiting(old(reg)@, old(reg)@.handle(handle).device, false),
        final(reg)@.wf(),
        final(data)@ == (if status == LIBUSB_SUCCESS {
            bulk_buffer(endpoint, old(data)@, length, reply)
        } else {
            old(data)@
        }),
        *final(transferred) == (if status == LIBUSB_SUCCESS && *old(transferred) is Some {
            Some(bulk_count(length, reply))
        } else {
            *old(transferred)
        }),
{
    let dev = libusb_get_device(reg, handle);
    proof {
        assert(old(reg)@.handles[handle - 1] is Some);
    }
    end(reg, dev);
    let out = endpoint_is_out(endpoint);
    match reply {
        Ok(BulkReply::Out(reply)) => {
            if !out {
                return LIBUSB_ERROR_OTHER;
            }
            match reply.0 {
                Ok(size) => {
                    if transferred.is_some() {
                        *transferred = Some(#[verifier::truncate] (size as c_int));
                    }
                    LIBUSB_SUCCESS
                },
                Err(e) => {
                    proof {
                        lemma_error_code_total_and_distinct(e, e);
                    }
                    e.into()
                },
            }
        },
        Ok(BulkReply::In(reply)) => {
            if out {
                return LIBUSB_ERROR_OTHER;
            }
            match reply.0 {
                Ok(buf) => {
                    let bytes = buf.0;
                    let n: usize = if bytes.len() < length as usize {
                        bytes.len()
                    } else {
                        length as usize
                    };
                    let mut i: usize = 0;
                    while i < n
                        invariant
                            i <= n,
                            n <= bytes@.len(),
                            n <= data@.len(),
                            data@.len() == old(data)@.len(),
                            data@ == bytes@.subrange(0, i as int) + old(data)@.subrange(
                                i as int,
                                old(data)@.len() as int,
                            ),
                        decreases n - i,
                    {
                        data[i] = bytes[i];
                        i = i + 1;
                    }
                    if transferred.is_some() {
                        *transferred = Some(n as c_int);
                    }
                    LIBUSB_SUCCESS
                },
                Err(e) => {
                    proof {
                        lemma_error_code_total_and_distinct(e, e);
                    }
                    e.into()
                },
            }
        },
        Err(_) => LIBUSB_ERROR_OTHER,
    }
}

/// First half of selecting a configuration: the command to post. The number
/// of the configuration is cut to one byte.
pub fn set_configuration_request(reg: &mut Registry, handle: usize, config: c_int) -> (cmd:
    SelectConfiguration)
    requires
        old(reg)@.wf(),
        old(reg)@.handle_live(handle),
        !old(reg)@.device(old(reg)@.handle(handle).device).comm.awaiting,
    ensures
        cmd == (SelectConfiguration {
            device: old(reg)@.device(old(reg)@.handle(handle).device).id,
            config: config as u8,
        }),
        final(reg)@ == with_awaiting(old(reg)@, old(reg)@.handle(handle).device, true),
        final(reg)@.wf(),
{
    let dev = libusb_get_device(reg, handle);
    proof {
        assert(old(reg)@.handles[handle - 1] is Some);
    }
    let device = begin(reg, dev);
    SelectConfiguration { device, config: #[verifier::truncate] (config as u8) }
}

/// Second half of selecting a configuration: the status for the reply.
pub fn libusb_set_configuration(
    reg: &mut Registry,
    handle: usize,
    reply: Result<NullReply, TransportError>,
) -> (status: c_int)
    requires
        old(reg)@.wf(),
        old(reg)@.handle_live(handle),
    ensures
        status == null_status(reply),
        final(reg)@ == with_awaiting(old(reg)@, old(reg)@.handle(handle).device, false),
        final(reg)@.wf(),
{
    let dev = libusb_get_device(reg, handle);
    proof {
        assert(old(reg)@.handles[handle - 1] is Some);
    }
    end(reg, dev);
    null_reply_status(reply)
}

/// First half of claiming an interface: the command to post. The number of
/// the interface is cut to one byte.
pub fn claim_interface_request(reg: &mut Registry, handle: usize, interface_number: c_int) -> (cmd:
    ClaimInterface)
    requires
        old(reg)@.wf(),
        old(reg)@.handle_live(handle),
        !old(reg)@.device(old(reg)@.handle(handle).device).comm.awaiting,
    ensures
        cmd == (ClaimInterface {
            device: old(reg)@.device(old(reg)@.handle(handle).device).id,
            number: interface_number as u8,
        }),
        final(reg)@ == with_awaiting(old(reg)@, old(reg)@.handle(handle).device, true),
        final(reg)@.wf(),
{
    let dev = libusb_get_device(reg, handle);
    proof {
        assert(old(reg)@.handles[handle - 1] is Some);
    }
    let device = begin(reg, dev);
    ClaimInterface { device, number: #[verifier::truncate] (interface_number as u8) }
}

/// Second half of claiming an interface: the status for the reply.
pub fn libusb_claim_interface(
    reg: &mut Registry,
    handle: usize,
    reply: Result<NullReply, TransportError>,
) -> (status: c_int)
    requires
        old(reg)@.wf(),
        old(reg)@.handle_live(handle),
    ensures
        status == null_status(reply),
        final(reg)@ == with_awaiting(old(reg)@, old(reg)@.handle(handle).device, false),
        final(reg)@.wf(),
{
    let dev = libusb_get_device(reg, handle);
    proof {
        assert(old(reg)@.handles[handle - 1] is Some);
    }
    end(reg, dev);
    null_reply_status(reply)
}

/// First half of releasing an interface: the command to post. The number of
/// the interface is cut to one byte.
pub fn release_interface_request(
    reg: &mut Registry,
    handle: usize,
    interface_number: c_int,
) -> (cmd: ReleaseInterface)
    requires
        old(reg)@.wf(),
        old(reg)@.handle_live(handle),
        !old(reg)@.device(old(reg)@.handle(handle).device).comm.awaiting,
    ensures
        cmd == (ReleaseInterface {
            device: old(reg)@.device(old(reg)@.handle(handle).device).id,
            number: interface_number as u8,
        }),
        final(reg)@ == with_awaiting(old(reg)@, old(reg)@.handle(handle).device, true),
        final(reg)@.wf(),
{
    let dev = libusb_get_device(reg, handle);
    proof {
        assert(old(reg)@.handles[handle - 1] is Some);
    }
    let device = begin(reg, dev);
    ReleaseInterface { device, number: #[verifier::truncate] (interface_number as u8) }
}

/// Second half of releasing an interface: the status for the reply.
pub fn libusb_release_interface(
    reg: &mut Registry,
    handle: usize,
    reply: Result<NullReply, TransportError>,
) -> (status: c_int)
    requires
        old(reg)@.wf(),
        old(reg)@.handle_live(handle),
    ensures
        status == null_status(reply),
        final(reg)@ == with_awaiting(old(reg)@, old(reg)@.handle(handle).device, false),
        final(reg)@.wf(),
{
    let dev = libusb_get_device(reg, handle);
    proof {
        assert(old(reg)@.handles[handle - 1] is Some);
    }
    end(reg, dev);
    null_reply_status(reply)
}

/// First half of resetting a device: the command to post.
pub fn reset_device_request(reg: &mut Registry, handle: usize) -> (cmd: ResetDevice)
    requires
        old(reg)@.wf(),
        old(reg)@.handle_live(handle),
        !old(reg)@.device(old(reg)@.handle(handle).device).comm.awaiting,
    ensures
        cmd == (ResetDevice { device: old(reg)@.device(old(reg)@.handle(handle).device).id }),
        final(reg)@ == with_awaiting(old(reg)@, old(reg)@.handle(handle).device, true),
        final(reg)@.wf(),
{
    let dev = libusb_get_device(reg, handle);
    proof {
        assert(old(reg)@.handles[handle - 1] is Some);
    }
    let device = begin(reg, dev);
    ResetDevice { device }
}

/// Second half of resetting a device: the status for the reply.
pub fn libusb_reset_device(
    reg: &mut Registry,
    handle: usize,
    reply: Result<NullReply, TransportError>,
) -> (status: c_int)
    requires
        old(reg)@.wf(),
        old(reg)@.handle_live(handle),
    ensures
        status == null_status(reply),
        final(reg)@ == with_awaiting(old(reg)@, old(reg)@.handle(handle).device, false),
        final(reg)@.wf(),
{
    let dev = libusb_get_device(reg, handle);
    proof {
        assert(old(reg)@.handles[handle - 1] is Some);
    }
    end(reg, dev);
    null_reply_status(reply)
}

/// A round trip changes nothing of the registry but the state of one
/// channel, so what held of its devices and handles before holds after.
pub proof fn lemma_awaiting_keeps_wf(before: RegistryView, dev: usize, awaiting: bool)
    requires
        before.wf(),
        before.device_live(dev),
    ensures
        with_awaiting(before, dev, awaiting).wf(),
        with_awaiting(before, dev, awaiting).handles == before.handles,
        with_awaiting(before, dev, awaiting).contexts == before.contexts,
        forall|d: usize|
            before.device_live(d) <==> with_awaiting(before, dev, awaiting).device_live(d),
        forall|d: usize|
            before.device_live(d) ==> with_awaiting(before, dev, awaiting).device(d).refs
                == before.device(d).refs && with_awaiting(before, dev, awaiting).device(d).id
                == before.device(d).id && with_awaiting(before, dev, awaiting).device(d).usb_id
                == before.device(d).usb_id,
{
    let after = with_awaiting(before, dev, awaiting);
    assert forall|d: usize| after.device_live(d) implies #[trigger] after.handles_on(d)
        <= after.device(d).refs by {
        assert(before.handles_on(d) <= before.device(d).refs);
    }
    assert forall|h: int|
        0 <= h < after.handles.len() && (#[trigger] after.handles[h]) is Some implies after.device_live(
        after.handles[h]->0.device,
    ) by {
        assert(before.device_live(before.handles[h]->0.device));
    }
}

/// A read that asked for `length` bytes and got `bytes` succeeds and reports
/// the smaller of the two lengths, whichever it is: what came beyond the
/// length asked for is dropped and is no error.
pub proof fn lemma_bulk_in_yields_min(endpoint: u8, length: c_int, bytes: Data)
    requires
        !is_out_endpoint(endpoint),
        0 <= length,
    ensures
        bulk_status(endpoint, Ok(BulkReply::In(BulkTransferInReply(Ok(bytes)))))
            == LIBUSB_SUCCESS,
        bulk_count(length, Ok(BulkReply::In(BulkTransferInReply(Ok(bytes))))) == vstd::math::min(
            length as int,
            bytes.0@.len() as int,
        ),
{
}

} // verus!
