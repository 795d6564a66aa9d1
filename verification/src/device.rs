//! Contexts, devices and the handles opened on them. A device is counted by
//! reference: each handle holds one reference, callers may hold more, and the
//! device goes when the last reference is given back.

use vstd::pervasive::unreached;
use vstd::prelude::*;
use crate::channel::Channel;
use crate::constants::{c_int, LIBUSB_SUCCESS};
use crate::structs::{libusb_device_descriptor, zero_device_descriptor};

verus! {

/// A context carries nothing; it is only there to be made and given back.
#[derive(Debug, Clone, Copy, PartialEq, Eq, Structural)]
pub struct libusb_context {}

/// An opened device: the address of the device that it refers to.
#[derive(Debug, Clone, Copy, PartialEq, Eq, Structural)]
pub struct libusb_device_handle {
    pub device: usize,
}

/// A device as the host knows it: its number there, its vendor and product
/// id, its channel to the host, and the count of references to it.
#[derive(Debug, Clone, Copy)]
pub struct libusb_device {
    pub id: u32,
    pub usb_id: (u16, u16),
    pub comm: Channel,
    pub refs: usize,
}

/// The number of live handles among the first `n` that refer to `device`.
pub open spec fn count_handles(
    handles: Seq<Option<libusb_device_handle>>,
    device: usize,
    n: int,
) -> int
    decreases n,
{
    if n <= 0 {
        0
    } else {
        count_handles(handles, device, n - 1) + if handles[n - 1] == Some(
            libusb_device_handle { device },
        ) {
            1int
        } else {
            0int
        }
    }
}

/// What a `Registry` holds. The object with address `p` is at index `p - 1`
/// of its list; 0 is the null pointer; an object that was freed leaves `None`
/// behind and its address is not used again.
pub struct RegistryView {
    pub contexts: Seq<Option<libusb_context>>,
    pub devices: Seq<Option<libusb_device>>,
    pub handles: Seq<Option<libusb_device_handle>>,
}

impl RegistryView {
    pub open spec fn context_live(self, p: usize) -> bool {
        1 <= p <= self.contexts.len() && self.contexts[p - 1] is Some
    }

    pub open spec fn device_live(self, p: usize) -> bool {
        1 <= p <= self.devices.len() && self.devices[p - 1] is Some
    }

    pub open spec fn device(self, p: usize) -> libusb_device
        recommends
            self.device_live(p),
    {
        self.devices[p - 1]->0
    }

    pub open spec fn handle_live(self, p: usize) -> bool {
        1 <= p <= self.handles.len() && self.handles[p - 1] is Some
    }

    pub open spec fn handle(self, p: usize) -> libusb_device_handle
        recommends
            self.handle_live(p),
    {
        self.handles[p - 1]->0
    }

    /// The number of live handles on `device`.
    pub open spec fn handles_on(self, device: usize) -> int {
        count_handles(self.handles, device, self.handles.len() as int)
    }

    /// Every live handle refers to a live device, and every live device is
    /// referred to at least as often as it has live handles.
    pub open spec fn wf(self) -> bool {
        &&& forall|h: int|
            0 <= h < self.handles.len() && (#[trigger] self.handles[h]) is Some
                ==> self.device_live(self.handles[h]->0.device)
        &&& forall|d: usize|
            self.device_live(d) ==> #[trigger] self.handles_on(d) <= self.device(d).refs
    }

    /// This registry with `dev` in place of the device at `p`.
    pub open spec fn with_device(self, p: usize, dev: Option<libusb_device>) -> RegistryView {
        RegistryView { devices: self.devices.update(p - 1, dev), ..self }
    }

    /// This registry with one reference less to the device at `p`, and
    /// without that device if it was the last.
    pub open spec fn unref(self, p: usize) -> RegistryView {
        if self.device(p).refs == 1 {
            self.with_device(p, None)
        } else {
            self.with_device(
                p,
                Some(libusb_device { refs: (self.device(p).refs - 1) as usize, ..self.device(p) }),
            )
        }
    }
}

/// The owner of every context, device and handle of the surface.
pub struct Registry {
    contexts: Vec<Option<libusb_context>>,
    devices: Vec<Option<libusb_device>>,
    handles: Vec<Option<libusb_device_handle>>,
}

impl View for Registry {
    type V = RegistryView;

    closed spec fn view(&self) -> RegistryView {
        RegistryView { contexts: self.contexts@, devices: self.devices@, handles: self.handles@ }
    }
}

/// The count of handles on a device lies between 0 and the number of
/// handles looked at, and it is 0 exactly if none of them is on the device.
pub proof fn lemma_count_handles_bounds(
    handles: Seq<Option<libusb_device_handle>>,
    device: usize,
    n: int,
)
    requires
        0 <= n <= handles.len(),
    ensures
        0 <= count_handles(handles, device, n) <= n,
        count_handles(handles, device, n) == 0 ==> forall|h: int|
            0 <= h < n ==> #[trigger] handles[h] != Some(libusb_device_handle { device }),
        forall|h: int|
            0 <= h < n && #[trigger] handles[h] == Some(libusb_device_handle { device })
                ==> count_handles(handles, device, n) >= 1,
        (forall|h: int|
            0 <= h < n ==> #[trigger] handles[h] != Some(libusb_device_handle { device }))
            ==> count_handles(handles, device, n) == 0,
    decreases n,
{
    if n > 0 {
        lemma_count_handles_bounds(handles, device, n - 1);
    }
}

proof fn lemma_count_handles_same_prefix(
    a: Seq<Option<libusb_device_handle>>,
    b: Seq<Option<libusb_device_handle>>,
    device: usize,
    n: int,
)
    requires
        0 <= n <= a.len(),
        n <= b.len(),
        forall|h: int| 0 <= h < n ==> a[h] == b[h],
    ensures
        count_handles(a, device, n) == count_handles(b, device, n),
    decreases n,
{
    if n > 0 {
        lemma_count_handles_same_prefix(a, b, device, n - 1);
    }
}

proof fn lemma_count_handles_update(
    handles: Seq<Option<libusb_device_handle>>,
    device: usize,
    n: int,
    at: int,
    value: Option<libusb_device_handle>,
)
    requires
        0 <= at < n <= handles.len(),
    ensures
        count_handles(handles.update(at, value), device, n) == count_handles(handles, device, n)
            - (if handles[at] == Some(libusb_device_handle { device }) {
            1int
        } else {
            0int
        }) + (if value == Some(libusb_device_handle { device }) {
            1int
        } else {
            0int
        }),
    decreases n,
{
    if at == n - 1 {
        lemma_count_handles_same_prefix(handles.update(at, value), handles, device, n - 1);
    } else {
        lemma_count_handles_update(handles, device, n - 1, at, value);
    }
}

impl Registry {
    /// A registry that holds nothing.
    pub fn new() -> (reg: Self)
        ensures
            reg@.wf(),
            reg@.contexts.len() == 0,
            reg@.devices.len() == 0,
            reg@.handles.len() == 0,
    {
        Registry { contexts: Vec::new(), devices: Vec::new(), handles: Vec::new() }
    }

    /// Whether `p` is the address of a device that has not been freed.
    pub fn is_device(&self, p: usize) -> (live: bool)
        ensures
            live == self@.device_live(p),
    {
        1 <= p && p <= self.devices.len() && self.devices[p - 1].is_some()
    }

    /// Whether `p` is the address of a handle that has not been closed.
    pub fn is_handle(&self, p: usize) -> (live: bool)
        ensures
            live == self@.handle_live(p),
    {
        1 <= p && p <= self.handles.len() && self.handles[p - 1].is_some()
    }

    /// Whether `p` is the address of a context that has not been given back.
    pub fn is_context(&self, p: usize) -> (live: bool)
        ensures
            live == self@.context_live(p),
    {
        1 <= p && p <= self.contexts.len() && self.contexts[p - 1].is_some()
    }

    /// The device at `p`.
    pub fn device(&self, p: usize) -> (dev: libusb_device)
        requires
            self@.device_live(p),
        ensures
            dev == self@.device(p),
    {
        match self.devices[p - 1] {
            Some(dev) => dev,
            None => unreached(),
        }
    }

    /// The number of live handles on the device at `device`.
    pub fn open_handles(&self, device: usize) -> (n: usize)
        ensures
            n == self@.handles_on(device),
    {
        let mut n: usize = 0;
        let mut i: usize = 0;
        while i < self.handles.len()
            invariant
                i <= self.handles.len(),
                n <= i,
                n == count_handles(self@.handles, device, i as int),
            decreases self.handles.len() - i,
        {
            let on_device = match self.handles[i] {
                Some(handle) => handle.device == device,
                None => false,
            };
            if on_device {
                n = n + 1;
            }
            i = i + 1;
        }
        n
    }

    /// The number of contexts, live or given back, that were ever made.
    pub fn context_count(&self) -> (n: usize)
        ensures
            n == self@.contexts.len(),
    {
        self.contexts.len()
    }

    /// The number of devices, live or freed, that were ever made.
    pub fn device_count(&self) -> (n: usize)
        ensures
            n == self@.devices.len(),
    {
        self.devices.len()
    }

    /// The number of handles, live or closed, that were ever opened.
    pub fn handle_count(&self) -> (n: usize)
        ensures
            n == self@.handles.len(),
    {
        self.handles.len()
    }

    /// Puts `dev` in place of the device at `p`.
    pub(crate) fn set_device(&mut self, p: usize, dev: libusb_device)
        requires
            old(self)@.device_live(p),
        ensures
            final(self)@ == old(self)@.with_device(p, Some(dev)),
    {
        self.devices[p - 1] = Some(dev);
    }

    /// Takes one reference from the device at `p` and frees the device if
    /// that was the last.
    fn drop_ref(&mut self, p: usize)
        requires
            old(self)@.device_live(p),
            old(self)@.device(p).refs >= 1,
        ensures
            final(self)@ == old(self)@.unref(p),
    {
        let dev = self.device(p);
        if dev.refs == 1 {
            self.devices[p - 1] = None;
        } else {
            self.devices[p - 1] = Some(libusb_device { refs: dev.refs - 1, ..dev });
        }
    }
}

impl libusb_device_handle {
    /// Opens a handle on the device at `device`: takes a reference to the
    /// device and makes the handle that holds it.
    pub fn new(reg: &mut Registry, device: usize) -> (handle: usize)
        requires
            old(reg)@.wf(),
            old(reg)@.device_live(device),
            old(reg)@.device(device).refs < usize::MAX,
            old(reg)@.handles.len() < usize::MAX,
        ensures
            final(reg)@.wf(),
            handle == old(reg)@.handles.len() + 1,
            final(reg)@.handle_live(handle),
            final(reg)@.contexts == old(reg)@.contexts,
            final(reg)@.devices == old(reg)@.devices.update(
                device - 1,
                Some(
                    libusb_device {
                        refs: (old(reg)@.device(device).refs + 1) as usize,
                        ..old(reg)@.device(device)
                    },
                ),
            ),
            final(reg)@.handles == old(reg)@.handles.push(Some(libusb_device_handle { device })),
    {
        libusb_ref_device(reg, device);
        let ghost mid = reg@;
        reg.handles.push(Some(libusb_device_handle { device }));
        proof {
            let n = mid.handles.len() as int;
            assert forall|d: usize| reg@.device_live(d) implies #[trigger] reg@.handles_on(d)
                <= reg@.device(d).refs by {
                lemma_count_handles_same_prefix(reg@.handles, mid.handles, d, n);
                assert(mid.handles_on(d) <= mid.device(d).refs);
                assert(old(reg)@.handles_on(d) <= old(reg)@.device(d).refs);
            }
        }
        reg.handles.len()
    }
}

/// Makes a device with no reference to it yet and opens a handle on it, which
/// then holds the only reference.
pub fn init(reg: &mut Registry, id: u32, usb_id: (u16, u16), comm: Channel) -> (handle: usize)
    requires
        old(reg)@.wf(),
        old(reg)@.devices.len() < usize::MAX,
        old(reg)@.handles.len() < usize::MAX,
    ensures
        final(reg)@.wf(),
        handle == old(reg)@.handles.len() + 1,
        final(reg)@.contexts == old(reg)@.contexts,
        final(reg)@.devices == old(reg)@.devices.push(
            Some(libusb_device { id, usb_id, comm, refs: 1 }),
        ),
        final(reg)@.handles == old(reg)@.handles.push(
            Some(libusb_device_handle { device: (old(reg)@.devices.len() + 1) as usize }),
        ),
{
    reg.devices.push(Some(libusb_device { id, usb_id, comm, refs: 0 }));
    let device = reg.devices.len();
    proof {
        assert forall|d: usize| reg@.device_live(d) implies #[trigger] reg@.handles_on(d)
            <= reg@.device(d).refs by {
            if d == device {
                lemma_count_handles_bounds(reg@.handles, d, reg@.handles.len() as int);
                assert forall|h: int| 0 <= h < reg@.handles.len() implies #[trigger] reg@.handles[h]
                    != Some(libusb_device_handle { device: d }) by {
                    if old(reg)@.handles[h] is Some {
                        assert(old(reg)@.device_live(old(reg)@.handles[h]->0.device));
                    }
                }
            } else {
                assert(old(reg)@.handles_on(d) <= old(reg)@.device(d).refs);
            }
        }
        assert forall|h: int|
            0 <= h < reg@.handles.len() && (#[trigger] reg@.handles[h]) is Some implies reg@.device_live(
            reg@.handles[h]->0.device,
        ) by {
            assert(old(reg)@.device_live(old(reg)@.handles[h]->0.device));
        }
    }
    let handle = libusb_device_handle::new(reg, device);
    proof {
        assert(reg@.devices =~= old(reg)@.devices.push(
            Some(libusb_device { id, usb_id, comm, refs: 1 }),
        ));
    }
    handle
}

/// Makes a context and stores its address in `context`. Always succeeds.
pub fn libusb_init(reg: &mut Registry, context: &mut usize) -> (status: c_int)
    requires
        old(reg)@.contexts.len() < usize::MAX,
    ensures
        status == LIBUSB_SUCCESS,
        *final(context) == old(reg)@.contexts.len() + 1,
        final(reg)@.contexts == old(reg)@.contexts.push(Some(libusb_context {  })),
        final(reg)@.devices == old(reg)@.devices,
        final(reg)@.handles == old(reg)@.handles,
{
    reg.contexts.push(Some(libusb_context {  }));
    *context = reg.contexts.len();
    LIBUSB_SUCCESS
}

/// Gives a context back.
pub fn libusb_exit(reg: &mut Registry, context: usize)
    requires
        old(reg)@.context_live(context),
    ensures
        final(reg)@.contexts == old(reg)@.contexts.update(context - 1, None),
        final(reg)@.devices == old(reg)@.devices,
        final(reg)@.handles == old(reg)@.handles,
{
    reg.contexts[context - 1] = None;
}

/// Closes a handle: gives its reference to the device back, which frees the
/// device if that was the last, and frees the handle itself.
pub fn libusb_close(reg: &mut Registry, dev_handle: usize)
    requires
        old(reg)@.wf(),
        old(reg)@.handle_live(dev_handle),
    ensures
        final(reg)@.wf(),
        final(reg)@.contexts == old(reg)@.contexts,
        final(reg)@.handles == old(reg)@.handles.update(dev_handle - 1, None),
        final(reg)@.devices == old(reg)@.unref(old(reg)@.handle(dev_handle).device).devices,
{
    let device = libusb_get_device(reg, dev_handle);
    proof {
        assert(old(reg)@.handles[dev_handle - 1] is Some);
        assert(old(reg)@.device_live(device));
        lemma_count_handles_bounds(old(reg)@.handles, device, old(reg)@.handles.len() as int);
        assert(old(reg)@.handles[dev_handle - 1] == Some(libusb_device_handle { device }));
        assert(old(reg)@.handles_on(device) >= 1);
        assert(old(reg)@.handles_on(device) <= old(reg)@.device(device).refs);
    }
    reg.drop_ref(device);
    reg.handles[dev_handle - 1] = None;
    proof {
        let n = old(reg)@.handles.len() as int;
        assert forall|d: usize| reg@.device_live(d) implies #[trigger] reg@.handles_on(d)
            <= reg@.device(d).refs by {
            lemma_count_handles_update(old(reg)@.handles, d, n, dev_handle - 1, None);
            assert(old(reg)@.handles_on(d) <= old(reg)@.device(d).refs);
        }
        assert forall|h: int|
            0 <= h < reg@.handles.len() && (#[trigger] reg@.handles[h]) is Some implies reg@.device_live(
            reg@.handles[h]->0.device,
        ) by {
            let d = reg@.handles[h]->0.device;
            assert(old(reg)@.handles[h] is Some);
            assert(old(reg)@.device_live(d));
            if d == device && !reg@.device_live(d) {
                lemma_count_handles_update(old(reg)@.handles, d, n, dev_handle - 1, None);
                lemma_count_handles_bounds(reg@.handles, d, n);
                assert(reg@.handles[h] == Some(libusb_device_handle { device: d }));
                assert(old(reg)@.handles_on(d) <= 1);
            }
        }
    }
}

/// Fills `desc` from what is kept of the device: its vendor and product id.
/// Every other field is zero. No request goes to the host.
pub fn libusb_get_device_descriptor(
    reg: &Registry,
    dev: usize,
    desc: &mut libusb_device_descriptor,
) -> (status: c_int)
    requires
        reg@.device_live(dev),
    ensures
        status == LIBUSB_SUCCESS,
        *final(desc) == (libusb_device_descriptor {
            idVendor: reg@.device(dev).usb_id.0,
            idProduct: reg@.device(dev).usb_id.1,
            ..zero_device_descriptor()
        }),
{
    let device = reg.device(dev);
    let zero = libusb_device_descriptor::default();
    *desc = libusb_device_descriptor {
        idVendor: device.usb_id.0,
        idProduct: device.usb_id.1,
        ..zero
    };
    LIBUSB_SUCCESS
}

/// Takes one more reference to the device at `dev` and hands `dev` back.
pub fn libusb_ref_device(reg: &mut Registry, dev: usize) -> (same: usize)
    requires
        old(reg)@.wf(),
        old(reg)@.device_live(dev),
        old(reg)@.device(dev).refs < usize::MAX,
    ensures
        same == dev,
        final(reg)@.wf(),
        final(reg)@ == old(reg)@.with_device(
            dev,
            Some(
                libusb_device {
                    refs: (old(reg)@.device(dev).refs + 1) as usize,
                    ..old(reg)@.device(dev)
                },
            ),
        ),
{
    let device = reg.device(dev);
    reg.set_device(dev, libusb_device { refs: device.refs + 1, ..device });
    proof {
        assert forall|d: usize| reg@.device_live(d) implies #[trigger] reg@.handles_on(d)
            <= reg@.device(d).refs by {
            assert(old(reg)@.handles_on(d) <= old(reg)@.device(d).refs);
        }
        assert forall|h: int|
            0 <= h < reg@.handles.len() && (#[trigger] reg@.handles[h]) is Some implies reg@.device_live(
            reg@.handles[h]->0.device,
        ) by {
            assert(old(reg)@.device_live(old(reg)@.handles[h]->0.device));
        }
    }
    dev
}

/// Gives back a reference that the caller took to the device at `dev`. The
/// device is freed when the last reference goes. The references of open
/// handles are not the caller's to give back: they go when the handle is
/// closed.
pub fn libusb_unref_device(reg: &mut Registry, dev: usize)
    requires
        old(reg)@.wf(),
        old(reg)@.device_live(dev),
        old(reg)@.handles_on(dev) < old(reg)@.device(dev).refs,
    ensures
        final(reg)@.wf(),
        final(reg)@ == old(reg)@.unref(dev),
{
    proof {
        lemma_count_handles_bounds(old(reg)@.handles, dev, old(reg)@.handles.len() as int);
    }
    reg.drop_ref(dev);
    proof {
        assert forall|d: usize| reg@.device_live(d) implies #[trigger] reg@.handles_on(d)
            <= reg@.device(d).refs by {
            assert(old(reg)@.handles_on(d) <= old(reg)@.device(d).refs);
        }
        assert forall|h: int|
            0 <= h < reg@.handles.len() && (#[trigger] reg@.handles[h]) is Some implies reg@.device_live(
            reg@.handles[h]->0.device,
        ) by {
            let d = reg@.handles[h]->0.device;
            assert(old(reg)@.device_live(old(reg)@.handles[h]->0.device));
            if d == dev && !reg@.device_live(d) {
                assert(old(reg)@.handles[h] == Some(libusb_device_handle { device: d }));
            }
        }
    }
}

/// The device that a handle is open on.
pub fn libusb_get_device(reg: &Registry, dev_handle: usize) -> (dev: usize)
    requires
        reg@.handle_live(dev_handle),
    ensures
        dev == reg@.handle(dev_handle).device,
{
    match reg.handles[dev_handle - 1] {
        Some(handle) => handle.device,
        None => unreached(),
    }
}

} // verus!
