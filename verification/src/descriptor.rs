//! Descriptor trees: the blocks they are made of, the heap that owns the
//! blocks, and the two operations that build a tree and give it back.

use vstd::prelude::*;
use crate::channel::TransportError;
use crate::constants::{c_int, LIBUSB_ERROR_NO_MEM, LIBUSB_ERROR_OTHER, LIBUSB_SUCCESS};
use crate::device::Registry;
use crate::msgs::{
    error_code, lemma_error_code_total_and_distinct, ActiveConfigDescriptor,
    ActiveConfigDescriptorReply, AlternateInterfaceView, ConfigurationView, USBConfiguration,
    USBEndpoint,
};
use crate::transfer::{begin, end, with_awaiting};
use crate::structs::{
    libusb_config_descriptor, libusb_endpoint_descriptor, libusb_interface,
    libusb_interface_descriptor,
};

verus! {

/// One allocation: an array of one level of the tree, or its root record.
#[derive(Debug)]
pub enum Block {
    Endpoints(Vec<libusb_endpoint_descriptor>),
    Settings(Vec<libusb_interface_descriptor>),
    Interfaces(Vec<libusb_interface>),
    Config(libusb_config_descriptor),
}

pub enum BlockView {
    Endpoints(Seq<libusb_endpoint_descriptor>),
    Settings(Seq<libusb_interface_descriptor>),
    Interfaces(Seq<libusb_interface>),
    Config(libusb_config_descriptor),
}

impl View for Block {
    type V = BlockView;

    open spec fn view(&self) -> BlockView {
        match *self {
            Block::Endpoints(v) => BlockView::Endpoints(v@),
            Block::Settings(v) => BlockView::Settings(v@),
            Block::Interfaces(v) => BlockView::Interfaces(v@),
            Block::Config(c) => BlockView::Config(c),
        }
    }
}

/// What a `DescriptorHeap` holds. The block with address `p` is
/// `blocks[p - 1]`; it is `None` once it has been released. Addresses are
/// handed out in order and never again, so `blocks.len()` counts every
/// allocation made so far.
pub struct HeapView {
    pub blocks: Seq<Option<BlockView>>,
    /// The addresses released so far, in the order of their release.
    pub released: Seq<usize>,
}

impl HeapView {
    pub open spec fn in_range(self, p: usize) -> bool {
        1 <= p <= self.blocks.len()
    }

    /// `p` is the address of a block that has not been released.
    pub open spec fn live(self, p: usize) -> bool {
        self.in_range(p) && self.blocks[p - 1] is Some
    }

    /// What lies at the address `p`: a block, or `None` once it is released.
    pub open spec fn slot(self, p: usize) -> Option<BlockView>
        recommends
            self.in_range(p),
    {
        self.blocks[p - 1]
    }

    pub open spec fn block(self, p: usize) -> BlockView
        recommends
            self.live(p),
    {
        self.blocks[p - 1]->0
    }

    /// A block is dead exactly if the log of releases names it, and the log
    /// names no address twice.
    pub open spec fn wf(self) -> bool {
        &&& self.released.no_duplicates()
        &&& forall|p: usize| #[trigger]
            self.released.contains(p) <==> self.in_range(p) && self.blocks[p - 1] is None
    }

    /// Every setting of `settings` points to a live array of endpoints.
    pub open spec fn settings_ok(self, settings: Seq<libusb_interface_descriptor>) -> bool {
        forall|j: int|
            0 <= j < settings.len() ==> self.live((#[trigger] settings[j]).endpoint) && self.block(
                settings[j].endpoint,
            ) is Endpoints
    }

    /// Every interface of `ifaces` points to a live array of settings, and
    /// each of those to its endpoints.
    pub open spec fn interfaces_ok(self, ifaces: Seq<libusb_interface>) -> bool {
        forall|i: int|
            0 <= i < ifaces.len() ==> {
                let s = (#[trigger] ifaces[i]).altsetting;
                &&& self.live(s)
                &&& self.block(s) is Settings
                &&& self.settings_ok(self.block(s)->Settings_0)
            }
    }

    /// `config` is the address of a root record from which three levels of
    /// live arrays hang: interfaces, their settings, their endpoints.
    pub open spec fn has_shape(self, config: usize) -> bool {
        &&& self.live(config)
        &&& self.block(config) is Config
        &&& self.live(self.block(config)->Config_0.interface)
        &&& self.block(self.block(config)->Config_0.interface) is Interfaces
        &&& self.interfaces_ok(
            self.block(self.block(config)->Config_0.interface)->Interfaces_0,
        )
    }

    /// The order in which a walk from the first `n` interfaces meets their
    /// blocks: the last interface first, its settings before its endpoint
    /// arrays.
    pub open spec fn visit_interfaces(self, ifaces: Seq<libusb_interface>, n: int) -> Seq<usize>
        decreases n,
    {
        if n <= 0 {
            Seq::empty()
        } else {
            let s = ifaces[n - 1].altsetting;
            let settings = self.block(s)->Settings_0;
            seq![s] + visit_endpoints(settings, settings.len() as int) + self.visit_interfaces(
                ifaces,
                n - 1,
            )
        }
    }

    /// The order in which a walk from the root record at `config` meets the
    /// blocks of its tree: each block before the blocks that hang from it,
    /// and of those the last first.
    pub open spec fn visit_order(self, config: usize) -> Seq<usize> {
        let i = self.block(config)->Config_0.interface;
        let ifaces = self.block(i)->Interfaces_0;
        seq![config, i] + self.visit_interfaces(ifaces, ifaces.len() as int)
    }

    /// `config` is the root of a tree none of whose blocks is reached twice.
    pub open spec fn is_tree(self, config: usize) -> bool {
        self.has_shape(config) && self.visit_order(config).no_duplicates()
    }
}

/// The heap of descriptor blocks.
pub struct DescriptorHeap {
    slots: Vec<Option<Block>>,
    released: Ghost<Seq<usize>>,
}

pub open spec fn slot_view(slot: Option<Block>) -> Option<BlockView> {
    match slot {
        Some(b) => Some(b@),
        None => None,
    }
}

impl View for DescriptorHeap {
    type V = HeapView;

    closed spec fn view(&self) -> HeapView {
        HeapView {
            blocks: Seq::new(self.slots@.len(), |i: int| slot_view(self.slots@[i])),
            released: self.released@,
        }
    }
}

impl DescriptorHeap {
    /// A heap in which nothing was ever allocated.
    pub fn new() -> (heap: Self)
        ensures
            heap@.wf(),
            heap@.blocks.len() == 0,
            heap@.released.len() == 0,
    {
        DescriptorHeap { slots: Vec::new(), released: Ghost(Seq::empty()) }
    }

    /// The number of allocations made so far.
    pub fn len(&self) -> (n: usize)
        ensures
            n == self@.blocks.len(),
    {
        self.slots.len()
    }

    /// Whether `p` is the address of a block that has not been released.
    pub fn is_live(&self, p: usize) -> (live: bool)
        ensures
            live == self@.live(p),
    {
        1 <= p && p <= self.slots.len() && self.slots[p - 1].is_some()
    }

    /// The number of blocks that have not been released.
    pub fn live_count(&self) -> (n: usize)
        ensures
            n == count_live(self@.blocks, self@.blocks.len() as int),
    {
        let mut n: usize = 0;
        let mut i: usize = 0;
        while i < self.slots.len()
            invariant
                i <= self.slots.len(),
                n <= i,
                n == count_live(self@.blocks, i as int),
            decreases self.slots.len() - i,
        {
            if self.slots[i].is_some() {
                n = n + 1;
            }
            i = i + 1;
        }
        n
    }

    /// Puts `block` at the next address.
    pub fn allocate(&mut self, block: Block) -> (p: usize)
        requires
            old(self)@.wf(),
            old(self)@.blocks.len() < usize::MAX,
        ensures
            final(self)@.wf(),
            p == old(self)@.blocks.len() + 1,
            final(self)@.blocks == old(self)@.blocks.push(Some(block@)),
            final(self)@.released == old(self)@.released,
    {
        self.slots.push(Some(block));
        let p = self.slots.len();
        proof {
            assert(self@.blocks =~= old(self)@.blocks.push(Some(block@)));
            assert forall|q: usize| #[trigger]
                self@.released.contains(q) <==> self@.in_range(q) && self@.blocks[q - 1] is None by {
                assert(old(self)@.released.contains(q) <==> old(self)@.in_range(q) && old(
                    self,
                )@.blocks[q - 1] is None);
            }
        }
        p
    }

    /// Releases the block at `p`.
    pub fn release(&mut self, p: usize)
        requires
            old(self)@.wf(),
            old(self)@.live(p),
        ensures
            final(self)@.wf(),
            final(self)@.blocks == old(self)@.blocks.update(p - 1, None),
            final(self)@.released == old(self)@.released.push(p),
    {
        self.slots[p - 1] = None;
        proof {
            self.released@ = self.released@.push(p);
            assert(self@.blocks =~= old(self)@.blocks.update(p - 1, None));
            assert(!old(self)@.released.contains(p));
            assert forall|q: usize| #[trigger]
                self@.released.contains(q) <==> self@.in_range(q) && self@.blocks[q - 1] is None by {
                assert(old(self)@.released.contains(q) <==> old(self)@.in_range(q) && old(
                    self,
                )@.blocks[q - 1] is None);
                if q == p {
                    assert(self@.released[self@.released.len() - 1] == p);
                } else if old(self)@.released.contains(q) {
                    let k = choose|k: int|
                        0 <= k < old(self)@.released.len() && old(self)@.released[k] == q;
                    assert(self@.released[k] == q);
                }
            }
        }
    }

    /// The root record at `p`, if `p` is the address of a live one.
    pub fn config(&self, p: usize) -> (c: Option<libusb_config_descriptor>)
        ensures
            c == (if self@.live(p) && self@.block(p) is Config {
                Some(self@.block(p)->Config_0)
            } else {
                None
            }),
    {
        if 1 <= p && p <= self.slots.len() {
            match &self.slots[p - 1] {
                Some(Block::Config(c)) => Some(*c),
                _ => None,
            }
        } else {
            None
        }
    }

    /// The interfaces at `p`, if `p` is the address of a live array of them.
    pub fn interfaces(&self, p: usize) -> (v: Option<&Vec<libusb_interface>>)
        ensures
            self@.live(p) && self@.block(p) is Interfaces <==> v is Some,
            v matches Some(v) ==> v@ == self@.block(p)->Interfaces_0,
    {
        if 1 <= p && p <= self.slots.len() {
            match &self.slots[p - 1] {
                Some(Block::Interfaces(v)) => Some(v),
                _ => None,
            }
        } else {
            None
        }
    }

    /// The alternate settings at `p`, if `p` is the address of a live array
    /// of them.
    pub fn altsettings(&self, p: usize) -> (v: Option<&Vec<libusb_interface_descriptor>>)
        ensures
            self@.live(p) && self@.block(p) is Settings <==> v is Some,
            v matches Some(v) ==> v@ == self@.block(p)->Settings_0,
    {
        if 1 <= p && p <= self.slots.len() {
            match &self.slots[p - 1] {
                Some(Block::Settings(v)) => Some(v),
                _ => None,
            }
        } else {
            None
        }
    }

    /// The endpoints at `p`, if `p` is the address of a live array of them.
    pub fn endpoints(&self, p: usize) -> (v: Option<&Vec<libusb_endpoint_descriptor>>)
        ensures
            self@.live(p) && self@.block(p) is Endpoints <==> v is Some,
            v matches Some(v) ==> v@ == self@.block(p)->Endpoints_0,
    {
        if 1 <= p && p <= self.slots.len() {
            match &self.slots[p - 1] {
                Some(Block::Endpoints(v)) => Some(v),
                _ => None,
            }
        } else {
            None
        }
    }
}

/// The number of live blocks among the first `n`.
pub open spec fn count_live(blocks: Seq<Option<BlockView>>, n: int) -> int
    decreases n,
{
    if n <= 0 {
        0
    } else {
        count_live(blocks, n - 1) + if blocks[n - 1] is Some {
            1int
        } else {
            0int
        }
    }
}

/// The record of one endpoint: its address and packet size, the rest zero.
pub open spec fn endpoint_record(e: USBEndpoint) -> libusb_endpoint_descriptor {
    libusb_endpoint_descriptor {
        bLength: 0,
        bDescriptorType: 0,
        bEndpointAddress: e.address,
        bmAttributes: 0,
        wMaxPacketSize: e.packet_size,
        bInterval: 0,
        bRefresh: 0,
        bSynchAddress: 0,
        extra: 0,
        extra_length: 0,
    }
}

pub open spec fn endpoint_records(es: Seq<USBEndpoint>) -> Seq<libusb_endpoint_descriptor> {
    Seq::new(es.len(), |k: int| endpoint_record(es[k]))
}

/// The record of one alternate setting whose endpoints lie at `endpoint`.
/// The count is the length of that array, cut to the width of its field.
pub open spec fn setting_record(
    s: AlternateInterfaceView,
    endpoint: usize,
) -> libusb_interface_descriptor {
    libusb_interface_descriptor {
        bLength: 0,
        bDescriptorType: 0,
        bInterfaceNumber: 0,
        bAlternateSetting: s.alternate_setting,
        bNumEndpoints: s.endpoints.len() as u8,
        bInterfaceClass: s.interface_class,
        bInterfaceSubClass: s.interface_subclass,
        bInterfaceProtocol: s.interface_protocol,
        iInterface: 0,
        endpoint,
        extra: 0,
        extra_length: 0,
    }
}

/// The settings of one interface, where the endpoints of its setting `j` lie
/// at `first + j`.
pub open spec fn setting_records(
    first: int,
    settings: Seq<AlternateInterfaceView>,
) -> Seq<libusb_interface_descriptor> {
    Seq::new(settings.len(), |j: int| setting_record(settings[j], (first + j) as usize))
}

/// The number of blocks that the first `i` interfaces take: for each of them
/// one block of endpoints per setting and one block of settings.
pub open spec fn blocks_before(ifaces: Seq<Seq<AlternateInterfaceView>>, i: int) -> int
    decreases i,
{
    if i <= 0 {
        0
    } else {
        blocks_before(ifaces, i - 1) + ifaces[i - 1].len() + 1
    }
}

/// The number of blocks of a whole tree.
pub open spec fn node_count(cfg: ConfigurationView) -> int {
    blocks_before(cfg.interfaces, cfg.interfaces.len() as int) + 2
}

/// The record of one interface whose first block lies at `first`: its
/// settings follow the endpoint blocks of those settings.
pub open spec fn interface_record(
    first: int,
    settings: Seq<AlternateInterfaceView>,
) -> libusb_interface {
    libusb_interface {
        altsetting: (first + settings.len()) as usize,
        num_altsetting: settings.len() as c_int,
    }
}

pub open spec fn interface_records(
    first: int,
    ifaces: Seq<Seq<AlternateInterfaceView>>,
) -> Seq<libusb_interface> {
    Seq::new(
        ifaces.len(),
        |i: int| interface_record(first + blocks_before(ifaces, i), ifaces[i]),
    )
}

pub open spec fn config_record(cfg: ConfigurationView, interface: usize) -> libusb_config_descriptor {
    libusb_config_descriptor {
        bLength: 0,
        bDescriptorType: 0,
        wTotalLength: 0,
        bNumInterfaces: cfg.interfaces.len() as u8,
        bConfigurationValue: cfg.configuration_value,
        iConfiguration: 0,
        bmAttributes: 0,
        bMaxPower: 0,
        interface,
        extra: 0,
        extra_length: 0,
    }
}

/// The endpoint blocks of the first `n` settings of one interface, in the
/// order in which they are allocated.
pub open spec fn endpoint_blocks(settings: Seq<AlternateInterfaceView>, n: int) -> Seq<
    Option<BlockView>,
>
    decreases n,
{
    if n <= 0 {
        Seq::empty()
    } else {
        endpoint_blocks(settings, n - 1).push(
            Some(BlockView::Endpoints(endpoint_records(settings[n - 1].endpoints))),
        )
    }
}

/// The blocks of one interface whose first block lies at `first`.
pub open spec fn interface_blocks(first: int, settings: Seq<AlternateInterfaceView>) -> Seq<
    Option<BlockView>,
> {
    endpoint_blocks(settings, settings.len() as int).push(
        Some(BlockView::Settings(setting_records(first, settings))),
    )
}

/// The blocks of the first `n` interfaces of a tree whose first block lies at
/// `first`.
pub open spec fn interfaces_blocks(
    first: int,
    ifaces: Seq<Seq<AlternateInterfaceView>>,
    n: int,
) -> Seq<Option<BlockView>>
    decreases n,
{
    if n <= 0 {
        Seq::empty()
    } else {
        interfaces_blocks(first, ifaces, n - 1) + interface_blocks(
            first + blocks_before(ifaces, n - 1),
            ifaces[n - 1],
        )
    }
}

/// The blocks of the tree for `cfg`, in the order in which they are
/// allocated, where the first of them gets the address `first`: level by
/// level from the endpoints up, the root record last.
pub open spec fn tree_blocks(first: int, cfg: ConfigurationView) -> Seq<Option<BlockView>> {
    let n = cfg.interfaces.len() as int;
    interfaces_blocks(first, cfg.interfaces, n).push(
        Some(BlockView::Interfaces(interface_records(first, cfg.interfaces))),
    ).push(
        Some(
            BlockView::Config(
                config_record(cfg, (first + blocks_before(cfg.interfaces, n)) as usize),
            ),
        ),
    )
}

proof fn lemma_blocks_before_monotone(ifaces: Seq<Seq<AlternateInterfaceView>>, i: int, n: int)
    requires
        0 <= i <= n,
    ensures
        0 <= blocks_before(ifaces, i) <= blocks_before(ifaces, n),
    decreases n,
{
    if n > 0 {
        if i < n {
            lemma_blocks_before_monotone(ifaces, i, n - 1);
        } else {
            lemma_blocks_before_monotone(ifaces, i - 1, n - 1);
        }
    }
}

proof fn lemma_endpoint_blocks_len(settings: Seq<AlternateInterfaceView>, n: int)
    requires
        0 <= n,
    ensures
        endpoint_blocks(settings, n).len() == n,
    decreases n,
{
    if n > 0 {
        lemma_endpoint_blocks_len(settings, n - 1);
    }
}

proof fn lemma_interfaces_blocks_len(
    first: int,
    ifaces: Seq<Seq<AlternateInterfaceView>>,
    n: int,
)
    requires
        0 <= n,
    ensures
        interfaces_blocks(first, ifaces, n).len() == blocks_before(ifaces, n),
    decreases n,
{
    if n > 0 {
        lemma_interfaces_blocks_len(first, ifaces, n - 1);
        lemma_endpoint_blocks_len(ifaces[n - 1], ifaces[n - 1].len() as int);
    }
}

/// `after` is `before` with the tree for `cfg` on top of it: the blocks of
/// `before` as they were, then those of the tree in the order of their
/// allocation, and nothing released.
pub open spec fn is_built(before: HeapView, cfg: ConfigurationView, after: HeapView) -> bool {
    &&& after.blocks == before.blocks + tree_blocks(before.blocks.len() as int + 1, cfg)
    &&& after.released == before.released
}

/// `after` is `before` with the tree under `config` given back: every block
/// that a walk from `config` meets is released, the last met first, and no
/// other block is touched.
pub open spec fn is_freed(before: HeapView, config: usize, after: HeapView) -> bool {
    &&& after.blocks.len() == before.blocks.len()
    &&& after.released == before.released + before.visit_order(config).reverse()
    &&& forall|p: usize|
        before.in_range(p) ==> #[trigger] after.slot(p) == (if before.visit_order(
            config,
        ).contains(p) {
            None
        } else {
            before.slot(p)
        })
}

/// The addresses that building a tree of `n` blocks hands out, in the order
/// of the allocations, where the first is `first`.
pub open spec fn build_order(first: int, n: int) -> Seq<usize> {
    Seq::new(n as nat, |t: int| (first + t) as usize)
}

/// Builds the tree for `msg`: for each interface in turn the endpoints of each
/// of its settings and then its settings, after the last interface the array
/// of interfaces, and last the root record, whose address is returned.
pub fn build_config(heap: &mut DescriptorHeap, msg: &USBConfiguration) -> (config: usize)
    requires
        old(heap)@.wf(),
        old(heap)@.blocks.len() + node_count(msg@) <= usize::MAX,
    ensures
        final(heap)@.wf(),
        is_built(old(heap)@, msg@, final(heap)@),
        config == old(heap)@.blocks.len() + node_count(msg@),
        final(heap)@.is_tree(config),
        final(heap)@.visit_order(config) == build_order(
            old(heap)@.blocks.len() as int + 1,
            node_count(msg@),
        ).reverse(),
{
    let ghost base = old(heap)@.blocks.len() as int;
    let ghost first = base + 1;
    let ghost ifaces = msg@.interfaces;
    let mut interfaces: Vec<libusb_interface> = Vec::new();
    let mut i: usize = 0;
    proof {
        assert(heap@.blocks =~= old(heap)@.blocks + interfaces_blocks(first, ifaces, 0));
    }
    while i < msg.interfaces.len()
        invariant
            heap@.wf(),
            heap@.released == old(heap)@.released,
            i <= msg.interfaces.len(),
            ifaces == msg@.interfaces,
            base == old(heap)@.blocks.len(),
            first == base + 1,
            base + node_count(msg@) <= usize::MAX,
            heap@.blocks == old(heap)@.blocks + interfaces_blocks(first, ifaces, i as int),
            interfaces@ == Seq::new(
                i as nat,
                |t: int| interface_record(first + blocks_before(ifaces, t), ifaces[t]),
            ),
        decreases msg.interfaces.len() - i,
    {
        let interface = &msg.interfaces[i];
        let ghost settings_view = ifaces[i as int];
        let ghost fi = first + blocks_before(ifaces, i as int);
        let mut settings: Vec<libusb_interface_descriptor> = Vec::new();
        let mut j: usize = 0;
        proof {
            lemma_blocks_before_monotone(ifaces, i as int + 1, ifaces.len() as int);
            lemma_blocks_before_monotone(ifaces, 0, i as int);
            lemma_interfaces_blocks_len(first, ifaces, i as int);
            assert(settings_view.len() == interface@.len());
            assert(heap@.blocks =~= old(heap)@.blocks + interfaces_blocks(first, ifaces, i as int)
                + endpoint_blocks(settings_view, 0));
        }
        while j < interface.len()
            invariant
                heap@.wf(),
                heap@.released == old(heap)@.released,
                i < msg.interfaces.len(),
                j <= interface.len(),
                interface == &msg.interfaces[i as int],
                ifaces == msg@.interfaces,
                settings_view == ifaces[i as int],
                settings_view.len() == interface@.len(),
                base == old(heap)@.blocks.len(),
                first == base + 1,
                fi == first + blocks_before(ifaces, i as int),
                0 <= blocks_before(ifaces, i as int),
                fi + settings_view.len() + 2 <= usize::MAX,
                interfaces_blocks(first, ifaces, i as int).len() == blocks_before(ifaces, i as int),
                heap@.blocks == old(heap)@.blocks + interfaces_blocks(first, ifaces, i as int)
                    + endpoint_blocks(settings_view, j as int),
                settings@ == Seq::new(
                    j as nat,
                    |t: int| setting_record(settings_view[t], (fi + t) as usize),
                ),
            decreases interface.len() - j,
        {
            let setting = &interface[j];
            let mut endpoints: Vec<libusb_endpoint_descriptor> = Vec::new();
            let mut k: usize = 0;
            while k < setting.endpoints.len()
                invariant
                    k <= setting.endpoints.len(),
                    endpoints@ == Seq::new(
                        k as nat,
                        |t: int| endpoint_record(setting.endpoints@[t]),
                    ),
                decreases setting.endpoints.len() - k,
            {
                let endpoint = &setting.endpoints[k];
                endpoints.push(
                    libusb_endpoint_descriptor {
                        bLength: 0,
                        bDescriptorType: 0,
                        bEndpointAddress: endpoint.address,
                        bmAttributes: 0,
                        wMaxPacketSize: endpoint.packet_size,
                        bInterval: 0,
                        bRefresh: 0,
                        bSynchAddress: 0,
                        extra: 0,
                        extra_length: 0,
                    },
                );
                k = k + 1;
                proof {
                    assert(endpoints@ =~= Seq::new(
                        k as nat,
                        |t: int| endpoint_record(setting.endpoints@[t]),
                    ));
                }
            }
            let n_endpoints = endpoints.len();
            proof {
                lemma_endpoint_blocks_len(settings_view, j as int);
                assert(settings_view[j as int] == setting@);
                assert(endpoints@ =~= endpoint_records(settings_view[j as int].endpoints));
            }
            let p = heap.allocate(Block::Endpoints(endpoints));
            settings.push(
                libusb_interface_descriptor {
                    bLength: 0,
                    bDescriptorType: 0,
                    bInterfaceNumber: 0,
                    bAlternateSetting: setting.alternate_setting,
                    bNumEndpoints: #[verifier::truncate] (n_endpoints as u8),
                    bInterfaceClass: setting.interface_class,
                    bInterfaceSubClass: setting.interface_subclass,
                    bInterfaceProtocol: setting.interface_protocol,
                    iInterface: 0,
                    endpoint: p,
                    extra: 0,
                    extra_length: 0,
                },
            );
            j = j + 1;
            proof {
                assert(p == fi + (j - 1));
                assert(heap@.blocks =~= old(heap)@.blocks + interfaces_blocks(
                    first,
                    ifaces,
                    i as int,
                ) + endpoint_blocks(settings_view, j as int));
                assert(settings@ =~= Seq::new(
                    j as nat,
                    |t: int| setting_record(settings_view[t], (fi + t) as usize),
                ));
            }
        }
        let n_settings = settings.len();
        proof {
            lemma_endpoint_blocks_len(settings_view, j as int);
            assert(settings@ =~= setting_records(fi, settings_view));
        }
        let p = heap.allocate(Block::Settings(settings));
        interfaces.push(
            libusb_interface {
                altsetting: p,
                num_altsetting: #[verifier::truncate] (n_settings as c_int),
            },
        );
        i = i + 1;
        proof {
            assert(p == fi + settings_view.len());
            assert(heap@.blocks =~= old(heap)@.blocks + interfaces_blocks(first, ifaces, i as int));
            assert(interfaces@ =~= Seq::new(
                i as nat,
                |t: int| interface_record(first + blocks_before(ifaces, t), ifaces[t]),
            ));
        }
    }
    let n_interfaces = interfaces.len();
    proof {
        lemma_interfaces_blocks_len(first, ifaces, i as int);
        lemma_blocks_before_monotone(ifaces, 0, i as int);
        assert(interfaces@ =~= interface_records(first, ifaces));
    }
    let ip = heap.allocate(Block::Interfaces(interfaces));
    let cp = heap.allocate(
        Block::Config(
            libusb_config_descriptor {
                bLength: 0,
                bDescriptorType: 0,
                wTotalLength: 0,
                bNumInterfaces: #[verifier::truncate] (n_interfaces as u8),
                bConfigurationValue: msg.configuration_value,
                iConfiguration: 0,
                bmAttributes: 0,
                bMaxPower: 0,
                interface: ip,
                extra: 0,
                extra_length: 0,
            },
        ),
    );
    proof {
        assert(ip == first + blocks_before(ifaces, ifaces.len() as int));
        assert(heap@.blocks =~= old(heap)@.blocks + tree_blocks(first, msg@));
        assert(heap@.blocks.subrange(first - 1, first - 1 + node_count(msg@)) =~= tree_blocks(
            first,
            msg@,
        ));
        lemma_built_tree(heap@, first, msg@);
    }
    cp
}

/// The endpoint arrays of the first `n` settings, the last first.
pub open spec fn visit_endpoints(settings: Seq<libusb_interface_descriptor>, n: int) -> Seq<usize>
    decreases n,
{
    if n <= 0 {
        Seq::empty()
    } else {
        seq![settings[n - 1].endpoint] + visit_endpoints(settings, n - 1)
    }
}

impl DescriptorHeap {
    /// Walks the tree under the root record at `config` and lists the
    /// addresses of its blocks in the order in which it meets them. `None`
    /// says that no three levels of live arrays hang from `config`.
    pub fn walk(&self, config: usize) -> (order: Option<Vec<usize>>)
        ensures
            self@.has_shape(config) <==> order is Some,
            order matches Some(v) ==> {
                &&& v@ == self@.visit_order(config)
                &&& forall|t: int| 0 <= t < v@.len() ==> self@.live(#[trigger] v@[t])
            },
    {
        let root = match self.config(config) {
            Some(c) => c,
            None => {
                return None;
            },
        };
        let ifaces = match self.interfaces(root.interface) {
            Some(v) => v,
            None => {
                return None;
            },
        };
        let ghost target = self@.visit_order(config);
        let mut order: Vec<usize> = Vec::new();
        order.push(config);
        order.push(root.interface);
        let mut i: usize = ifaces.len();
        proof {
            assert(order@ =~= seq![config, root.interface]);
        }
        while i > 0
            invariant
                i <= ifaces.len(),
                self@.live(config),
                self@.block(config) == BlockView::Config(root),
                self@.live(root.interface),
                self@.block(root.interface) is Interfaces,
                ifaces@ == self@.block(root.interface)->Interfaces_0,
                target == seq![config, root.interface] + self@.visit_interfaces(
                    ifaces@,
                    ifaces@.len() as int,
                ),
                order@ + self@.visit_interfaces(ifaces@, i as int) == target,
                forall|t: int| 0 <= t < order@.len() ==> self@.live(#[trigger] order@[t]),
                forall|t: int|
                    i <= t < ifaces@.len() ==> {
                        let s = (#[trigger] ifaces@[t]).altsetting;
                        &&& self@.live(s)
                        &&& self@.block(s) is Settings
                        &&& self@.settings_ok(self@.block(s)->Settings_0)
                    },
            decreases i,
        {
            i = i - 1;
            let s = ifaces[i].altsetting;
            let settings = match self.altsettings(s) {
                Some(v) => v,
                None => {
                    proof {
                        if self@.has_shape(config) {
                            assert(self@.interfaces_ok(ifaces@));
                            let bad = ifaces@[i as int];
                            assert(self@.live(bad.altsetting) && self@.block(
                                bad.altsetting,
                            ) is Settings);
                        }
                    }
                    return None;
                },
            };
            let ghost before = order@;
            let ghost rest = self@.visit_interfaces(ifaces@, i as int);
            order.push(s);
            let mut j: usize = settings.len();
            proof {
                assert(before + self@.visit_interfaces(ifaces@, i as int + 1) == target);
                assert(order@ + visit_endpoints(settings@, j as int) + rest =~= before + (seq![s]
                    + visit_endpoints(settings@, settings@.len() as int) + rest));
            }
            while j > 0
                invariant
                    j <= settings.len(),
                    i < ifaces.len(),
                    s == ifaces@[i as int].altsetting,
                    self@.live(config),
                    self@.block(config) == BlockView::Config(root),
                    self@.live(root.interface),
                    self@.block(root.interface) is Interfaces,
                    ifaces@ == self@.block(root.interface)->Interfaces_0,
                    self@.live(s),
                    self@.block(s) is Settings,
                    settings@ == self@.block(s)->Settings_0,
                    order@ + visit_endpoints(settings@, j as int) + rest == target,
                    forall|t: int| 0 <= t < order@.len() ==> self@.live(#[trigger] order@[t]),
                    forall|t: int|
                        j <= t < settings@.len() ==> self@.live((#[trigger] settings@[t]).endpoint)
                            && self@.block(settings@[t].endpoint) is Endpoints,
                decreases j,
            {
                j = j - 1;
                let e = settings[j].endpoint;
                if self.endpoints(e).is_none() {
                    proof {
                        if self@.has_shape(config) {
                            assert(self@.interfaces_ok(ifaces@));
                            let holder = ifaces@[i as int];
                            assert(self@.settings_ok(self@.block(holder.altsetting)->Settings_0));
                            let bad = settings@[j as int];
                            assert(self@.live(bad.endpoint) && self@.block(
                                bad.endpoint,
                            ) is Endpoints);
                        }
                    }
                    return None;
                }
                let ghost prev = order@;
                order.push(e);
                proof {
                    assert(order@ + visit_endpoints(settings@, j as int) + rest =~= prev
                        + visit_endpoints(settings@, j as int + 1) + rest);
                }
            }
            proof {
                assert(order@ + visit_endpoints(settings@, 0) + rest =~= order@ + rest);
                assert(self@.settings_ok(settings@));
            }
        }
        proof {
            assert(order@ + self@.visit_interfaces(ifaces@, 0) =~= order@);
        }
        Some(order)
    }
}

/// Gives back the tree under the root record at `config_ptr`: walks it from
/// the root, then releases what the walk met, last met first, so that every
/// array goes before the record that points to it and the root goes last.
pub fn libusb_free_config_descriptor(heap: &mut DescriptorHeap, config_ptr: usize)
    requires
        old(heap)@.wf(),
        old(heap)@.is_tree(config_ptr),
    ensures
        final(heap)@.wf(),
        is_freed(old(heap)@, config_ptr, final(heap)@),
{
    let order = match heap.walk(config_ptr) {
        Some(v) => v,
        None => {
            return ;
        },
    };
    let ghost visits = order@;
    let mut k: usize = order.len();
    proof {
        assert(visits.subrange(k as int, visits.len() as int) =~= Seq::empty());
        assert(heap@.released =~= old(heap)@.released + visits.subrange(
            k as int,
            visits.len() as int,
        ).reverse());
    }
    while k > 0
        invariant
            k <= order.len(),
            visits == order@,
            visits == old(heap)@.visit_order(config_ptr),
            visits.no_duplicates(),
            forall|t: int| 0 <= t < visits.len() ==> old(heap)@.live(#[trigger] visits[t]),
            heap@.wf(),
            heap@.blocks.len() == old(heap)@.blocks.len(),
            heap@.released == old(heap)@.released + visits.subrange(
                k as int,
                visits.len() as int,
            ).reverse(),
            forall|q: usize|
                old(heap)@.in_range(q) ==> #[trigger] heap@.slot(q) == (if visits.subrange(
                    k as int,
                    visits.len() as int,
                ).contains(q) {
                    None
                } else {
                    old(heap)@.slot(q)
                }),
        decreases k,
    {
        k = k - 1;
        let p = order[k];
        let ghost done = visits.subrange(k as int + 1, visits.len() as int);
        let ghost now = visits.subrange(k as int, visits.len() as int);
        proof {
            assert(old(heap)@.live(visits[k as int]));
            if done.contains(p) {
                let t = choose|t: int| 0 <= t < done.len() && done[t] == p;
                assert(visits[k as int + 1 + t] == p);
            }
            assert(heap@.slot(p) == old(heap)@.slot(p));
        }
        let ghost mid = heap@;
        heap.release(p);
        proof {
            assert(now =~= seq![p] + done);
            assert(now.reverse() =~= done.reverse().push(p));
            assert(heap@.released =~= old(heap)@.released + now.reverse());
            assert forall|q: usize| old(heap)@.in_range(q) implies #[trigger] heap@.slot(q) == (if now.contains(
                q,
            ) {
                None
            } else {
                old(heap)@.slot(q)
            }) by {
                assert(mid.slot(q) == (if done.contains(q) {
                    None
                } else {
                    old(heap)@.slot(q)
                }));
                if q == p {
                    assert(now[0] == p);
                } else if done.contains(q) {
                    let t = choose|t: int| 0 <= t < done.len() && done[t] == q;
                    assert(now[t + 1] == q);
                } else if now.contains(q) {
                    let t = choose|t: int| 0 <= t < now.len() && now[t] == q;
                    assert(t > 0);
                    assert(done[t - 1] == q);
                }
            }
        }
    }
    proof {
        assert(visits.subrange(0, visits.len() as int) =~= visits);
    }
}

proof fn lemma_endpoint_blocks_index(settings: Seq<AlternateInterfaceView>, n: int, j: int)
    requires
        0 <= j < n,
    ensures
        endpoint_blocks(settings, n)[j] == Some(
            BlockView::Endpoints(endpoint_records(settings[j].endpoints)),
        ),
    decreases n,
{
    lemma_endpoint_blocks_len(settings, n - 1);
    if j < n - 1 {
        lemma_endpoint_blocks_index(settings, n - 1, j);
    }
}

proof fn lemma_interfaces_blocks_index(
    first: int,
    ifaces: Seq<Seq<AlternateInterfaceView>>,
    n: int,
    i: int,
)
    requires
        0 <= i < n,
    ensures
        0 <= blocks_before(ifaces, i),
        blocks_before(ifaces, i) + ifaces[i].len() + 1 <= blocks_before(ifaces, n),
        interfaces_blocks(first, ifaces, n).len() == blocks_before(ifaces, n),
        forall|j: int|
            0 <= j < ifaces[i].len() ==> #[trigger] interfaces_blocks(
                first,
                ifaces,
                n,
            )[blocks_before(ifaces, i) + j] == Some(
                BlockView::Endpoints(endpoint_records(ifaces[i][j].endpoints)),
            ),
        interfaces_blocks(first, ifaces, n)[blocks_before(ifaces, i) + ifaces[i].len()] == Some(
            BlockView::Settings(setting_records(first + blocks_before(ifaces, i), ifaces[i])),
        ),
    decreases n,
{
    lemma_interfaces_blocks_len(first, ifaces, n);
    lemma_interfaces_blocks_len(first, ifaces, n - 1);
    lemma_blocks_before_monotone(ifaces, 0, i);
    lemma_blocks_before_monotone(ifaces, i + 1, n);
    let head = interfaces_blocks(first, ifaces, n - 1);
    let last = interface_blocks(first + blocks_before(ifaces, n - 1), ifaces[n - 1]);
    assert(interfaces_blocks(first, ifaces, n) == head + last);
    if i < n - 1 {
        lemma_interfaces_blocks_index(first, ifaces, n - 1, i);
        assert forall|j: int| 0 <= j < ifaces[i].len() implies #[trigger] interfaces_blocks(
            first,
            ifaces,
            n,
        )[blocks_before(ifaces, i) + j] == Some(
            BlockView::Endpoints(endpoint_records(ifaces[i][j].endpoints)),
        ) by {
            assert((head + last)[blocks_before(ifaces, i) + j] == head[blocks_before(ifaces, i)
                + j]);
        }
        assert((head + last)[blocks_before(ifaces, i) + ifaces[i].len()] == head[blocks_before(
            ifaces,
            i,
        ) + ifaces[i].len()]);
    } else {
        let m = ifaces[i].len() as int;
        lemma_endpoint_blocks_len(ifaces[i], m);
        assert forall|j: int| 0 <= j < ifaces[i].len() implies #[trigger] interfaces_blocks(
            first,
            ifaces,
            n,
        )[blocks_before(ifaces, i) + j] == Some(
            BlockView::Endpoints(endpoint_records(ifaces[i][j].endpoints)),
        ) by {
            lemma_endpoint_blocks_index(ifaces[i], m, j);
            assert((head + last)[blocks_before(ifaces, i) + j] == last[j]);
        }
        assert((head + last)[blocks_before(ifaces, i) + m] == last[m]);
    }
}

proof fn lemma_visit_endpoints_built(first: int, settings: Seq<AlternateInterfaceView>, n: int)
    requires
        0 <= first,
        0 <= n <= settings.len(),
        first + settings.len() <= usize::MAX,
    ensures
        visit_endpoints(setting_records(first, settings), n) == build_order(first, n).reverse(),
    decreases n,
{
    if n > 0 {
        lemma_visit_endpoints_built(first, settings, n - 1);
        assert(visit_endpoints(setting_records(first, settings), n) =~= build_order(
            first,
            n,
        ).reverse());
    } else {
        assert(visit_endpoints(setting_records(first, settings), n) =~= build_order(
            first,
            n,
        ).reverse());
    }
}

proof fn lemma_visit_interfaces_built(
    h: HeapView,
    first: int,
    ifaces: Seq<Seq<AlternateInterfaceView>>,
    n: int,
)
    requires
        1 <= first,
        0 <= n <= ifaces.len(),
        first + blocks_before(ifaces, ifaces.len() as int) <= usize::MAX,
        forall|i: int|
            0 <= i < ifaces.len() ==> h.blocks[#[trigger] blocks_before(ifaces, i) + ifaces[i].len()
                + first - 1] == Some(
                BlockView::Settings(setting_records(first + blocks_before(ifaces, i), ifaces[i])),
            ),
    ensures
        h.visit_interfaces(interface_records(first, ifaces), n) == build_order(
            first,
            blocks_before(ifaces, n),
        ).reverse(),
    decreases n,
{
    let recs = interface_records(first, ifaces);
    if n > 0 {
        let i = n - 1;
        lemma_visit_interfaces_built(h, first, ifaces, n - 1);
        lemma_blocks_before_monotone(ifaces, 0, i);
        lemma_blocks_before_monotone(ifaces, n, ifaces.len() as int);
        let fi = first + blocks_before(ifaces, i);
        let m = ifaces[i].len() as int;
        let s = recs[i].altsetting;
        assert(s == fi + m);
        assert(h.blocks[blocks_before(ifaces, i) + ifaces[i].len() + first - 1] == Some(
            BlockView::Settings(setting_records(fi, ifaces[i])),
        ));
        assert(h.block(s) == BlockView::Settings(setting_records(fi, ifaces[i])));
        let settings = h.block(s)->Settings_0;
        assert(settings == setting_records(fi, ifaces[i]));
        lemma_visit_endpoints_built(fi, ifaces[i], m);
        assert(h.visit_interfaces(recs, n) == seq![s] + visit_endpoints(
            settings,
            settings.len() as int,
        ) + h.visit_interfaces(recs, n - 1));
        assert(seq![s] + build_order(fi, m).reverse() + build_order(
            first,
            blocks_before(ifaces, i),
        ).reverse() =~= build_order(first, blocks_before(ifaces, n)).reverse());
    } else {
        assert(h.visit_interfaces(recs, n) =~= build_order(
            first,
            blocks_before(ifaces, n),
        ).reverse());
    }
}

/// A heap that holds the blocks of the tree for `cfg` from the address
/// `first` on holds a tree under the last of them, and a walk from that root
/// meets the tree's blocks in the reverse of the order of their allocation.
pub proof fn lemma_built_tree(h: HeapView, first: int, cfg: ConfigurationView)
    requires
        1 <= first,
        first + node_count(cfg) - 1 <= usize::MAX,
        first - 1 + node_count(cfg) <= h.blocks.len(),
        h.blocks.subrange(first - 1, first - 1 + node_count(cfg)) == tree_blocks(first, cfg),
    ensures
        h.is_tree((first + node_count(cfg) - 1) as usize),
        h.visit_order((first + node_count(cfg) - 1) as usize) == build_order(
            first,
            node_count(cfg),
        ).reverse(),
{
    let ifaces = cfg.interfaces;
    let n = ifaces.len() as int;
    let bb = blocks_before(ifaces, n);
    let tree = tree_blocks(first, cfg);
    let inner = interfaces_blocks(first, ifaces, n);
    let c = (first + node_count(cfg) - 1) as usize;
    let ip = (first + bb) as usize;
    lemma_blocks_before_monotone(ifaces, 0, n);
    lemma_interfaces_blocks_len(first, ifaces, n);
    assert(tree.len() == bb + 2);
    assert forall|idx: int| 0 <= idx < bb + 2 implies h.blocks[first - 1 + idx] == tree[idx] by {
        assert(h.blocks.subrange(first - 1, first - 1 + node_count(cfg))[idx] == h.blocks[first
            - 1 + idx]);
    }
    assert(h.blocks[first - 1 + bb + 1] == tree[bb + 1]);
    assert(h.blocks[first - 1 + bb] == tree[bb]);
    assert(h.live(c));
    assert(h.block(c) == BlockView::Config(config_record(cfg, ip)));
    assert(h.live(ip));
    let recs = interface_records(first, ifaces);
    assert(h.block(ip) == BlockView::Interfaces(recs));
    assert forall|i: int| 0 <= i < ifaces.len() implies h.blocks[#[trigger] blocks_before(
        ifaces,
        i,
    ) + ifaces[i].len() + first - 1] == Some(
        BlockView::Settings(setting_records(first + blocks_before(ifaces, i), ifaces[i])),
    ) by {
        lemma_interfaces_blocks_index(first, ifaces, n, i);
        let idx = blocks_before(ifaces, i) + ifaces[i].len();
        assert(tree[idx] == inner[idx]);
        assert(h.blocks[first - 1 + idx] == tree[idx]);
    }
    assert(h.interfaces_ok(recs)) by {
        assert forall|i: int| 0 <= i < recs.len() implies {
            let s = (#[trigger] recs[i]).altsetting;
            &&& h.live(s)
            &&& h.block(s) is Settings
            &&& h.settings_ok(h.block(s)->Settings_0)
        } by {
            lemma_interfaces_blocks_index(first, ifaces, n, i);
            let fi = first + blocks_before(ifaces, i);
            let m = ifaces[i].len() as int;
            let s = recs[i].altsetting;
            assert(s == fi + m);
            assert(h.blocks[blocks_before(ifaces, i) + ifaces[i].len() + first - 1] == Some(
                BlockView::Settings(setting_records(fi, ifaces[i])),
            ));
            let settings = h.block(s)->Settings_0;
            assert(settings == setting_records(fi, ifaces[i]));
            assert forall|j: int| 0 <= j < settings.len() implies h.live(
                (#[trigger] settings[j]).endpoint,
            ) && h.block(settings[j].endpoint) is Endpoints by {
                let idx = blocks_before(ifaces, i) + j;
                assert(inner[idx] == Some(
                    BlockView::Endpoints(endpoint_records(ifaces[i][j].endpoints)),
                ));
                assert(tree[idx] == inner[idx]);
                assert(h.blocks[first - 1 + idx] == tree[idx]);
                assert(settings[j].endpoint == fi + j);
            }
        }
    }
    lemma_visit_interfaces_built(h, first, ifaces, n);
    assert(h.visit_order(c) =~= build_order(first, node_count(cfg)).reverse());
    assert(h.visit_order(c).no_duplicates());
}

/// Building a tree and then giving it back leaves the heap as it was but for
/// the log: the same blocks are live as before and what they hold is
/// untouched (nothing leaks), each block of the tree was released once and
/// none twice, the arrays before the records that point to them, and the walk
/// that found them met them in the exact reverse of the order in which they
/// were built.
pub proof fn lemma_build_then_free(
    h0: HeapView,
    cfg: ConfigurationView,
    h1: HeapView,
    h2: HeapView,
)
    requires
        h0.wf(),
        h0.blocks.len() + node_count(cfg) <= usize::MAX,
        is_built(h0, cfg, h1),
        is_freed(h1, (h0.blocks.len() + node_count(cfg)) as usize, h2),
    ensures
        h1.is_tree((h0.blocks.len() + node_count(cfg)) as usize),
        h1.visit_order((h0.blocks.len() + node_count(cfg)) as usize) == build_order(
            h0.blocks.len() as int + 1,
            node_count(cfg),
        ).reverse(),
        h2.released == h0.released + build_order(h0.blocks.len() as int + 1, node_count(cfg)),
        h2.released.no_duplicates(),
        forall|p: usize| h2.live(p) <==> h0.live(p),
        forall|p: usize| h0.in_range(p) ==> h2.slot(p) == h0.slot(p),
{
    let first = h0.blocks.len() as int + 1;
    let k = node_count(cfg);
    let c = (h0.blocks.len() + k) as usize;
    let order = build_order(first, k);
    lemma_blocks_before_monotone(cfg.interfaces, 0, cfg.interfaces.len() as int);
    lemma_interfaces_blocks_len(first, cfg.interfaces, cfg.interfaces.len() as int);
    assert(h1.blocks.subrange(first - 1, first - 1 + k) =~= tree_blocks(first, cfg));
    lemma_built_tree(h1, first, cfg);
    assert(order.reverse().reverse() =~= order);
    assert forall|p: usize| order.reverse().contains(p) <==> first <= p < first + k by {
        if order.reverse().contains(p) {
            let t = choose|t: int| 0 <= t < order.reverse().len() && order.reverse()[t] == p;
        }
        if first <= p < first + k {
            assert(order.reverse()[first + k - 1 - p] == p);
        }
    }
    assert forall|p: usize| h2.live(p) <==> h0.live(p) by {
        if h1.in_range(p) {
            assert(h2.slot(p) == (if h1.visit_order(c).contains(p) {
                None
            } else {
                h1.slot(p)
            }));
        }
    }
    assert forall|p: usize| h0.in_range(p) implies h2.slot(p) == h0.slot(p) by {
        assert(h2.slot(p) == (if h1.visit_order(c).contains(p) {
            None
        } else {
            h1.slot(p)
        }));
    }
    assert(h2.released.no_duplicates()) by {
        assert forall|a: int, b: int|
            0 <= a < h2.released.len() && 0 <= b < h2.released.len() && a != b implies h2.released[a]
            != h2.released[b] by {
            let n0 = h0.released.len() as int;
            if a < n0 && b >= n0 {
                assert(h0.released.contains(h2.released[a]));
            }
            if b < n0 && a >= n0 {
                assert(h0.released.contains(h2.released[b]));
            }
        }
    }
}

/// Counts the blocks of the tree for `msg`, if their number can be counted.
fn count_nodes(msg: &USBConfiguration) -> (n: Option<usize>)
    ensures
        n matches Some(k) ==> k == node_count(msg@),
        n is None ==> node_count(msg@) > usize::MAX,
{
    let ghost ifaces = msg@.interfaces;
    let mut total: usize = 2;
    let mut i: usize = 0;
    while i < msg.interfaces.len()
        invariant
            i <= msg.interfaces.len(),
            ifaces == msg@.interfaces,
            total == blocks_before(ifaces, i as int) + 2,
        decreases msg.interfaces.len() - i,
    {
        let settings = msg.interfaces[i].len();
        proof {
            assert(ifaces[i as int].len() == settings);
            lemma_blocks_before_monotone(ifaces, i as int + 1, ifaces.len() as int);
        }
        if settings >= usize::MAX - total {
            return None;
        }
        total = total + settings + 1;
        i = i + 1;
    }
    Some(total)
}

/// First half of asking for the active configuration of the device at `dev`:
/// the command to post.
pub fn active_config_descriptor_request(reg: &mut Registry, dev: usize) -> (cmd:
    ActiveConfigDescriptor)
    requires
        old(reg)@.device_live(dev),
        !old(reg)@.device(dev).comm.awaiting,
    ensures
        cmd == (ActiveConfigDescriptor { device: old(reg)@.device(dev).id }),
        final(reg)@ == with_awaiting(old(reg)@, dev, true),
        old(reg)@.wf() ==> final(reg)@.wf(),
{
    let device = begin(reg, dev);
    ActiveConfigDescriptor { device }
}

/// The status of asking for the active configuration when the round trip
/// gave `reply` and the heap held `blocks` blocks: success if the host sent a
/// configuration and the heap has addresses left for its tree.
pub open spec fn config_status(
    blocks: nat,
    reply: Result<ActiveConfigDescriptorReply, TransportError>,
) -> c_int {
    match reply {
        Ok(ActiveConfigDescriptorReply(Ok(msg))) => if blocks + node_count(msg@) <= usize::MAX {
            LIBUSB_SUCCESS
        } else {
            LIBUSB_ERROR_NO_MEM
        },
        Ok(ActiveConfigDescriptorReply(Err(e))) => error_code(e),
        Err(_) => LIBUSB_ERROR_OTHER,
    }
}

/// Second half of asking for the active configuration: takes the reply of the
/// round trip. On success the tree for the configuration is built in `heap`
/// and the address of its root record is stored in `config_ptr`; the tree is
/// the caller's to give back. On any failure `heap` and `config_ptr` stay as
/// they were.
pub fn libusb_get_active_config_descriptor(
    reg: &mut Registry,
    heap: &mut DescriptorHeap,
    dev: usize,
    config_ptr: &mut usize,
    reply: Result<ActiveConfigDescriptorReply, TransportError>,
) -> (status: c_int)
    requires
        old(reg)@.device_live(dev),
        old(heap)@.wf(),
    ensures
        final(reg)@ == with_awaiting(old(reg)@, dev, false),
        old(reg)@.wf() ==> final(reg)@.wf(),
        final(heap)@.wf(),
        status == config_status(old(heap)@.blocks.len(), reply),
        status == LIBUSB_SUCCESS ==> {
            &&& reply matches Ok(ActiveConfigDescriptorReply(Ok(msg)))
            &&& is_built(old(heap)@, msg@, final(heap)@)
            &&& *final(config_ptr) == old(heap)@.blocks.len() + node_count(msg@)
            &&& final(heap)@.is_tree(*final(config_ptr))
        },
        status != LIBUSB_SUCCESS ==> final(heap)@ == old(heap)@ && *final(config_ptr) == *old(
            config_ptr,
        ),
{
    end(reg, dev);
    match reply {
        Ok(reply) => match reply.0 {
            Ok(msg) => {
                let fits = match count_nodes(&msg) {
                    Some(n) => n <= usize::MAX - heap.len(),
                    None => false,
                };
                if fits {
                    *config_ptr = build_config(heap, &msg);
                    LIBUSB_SUCCESS
                } else {
                    LIBUSB_ERROR_NO_MEM
                }
            },
            Err(e) => {
                proof {
                    lemma_error_code_total_and_distinct(e, e);
                }
                e.into()
            },
        },
        Err(_) => LIBUSB_ERROR_OTHER,
    }
}

proof fn lemma_visit_endpoints_holds(
    settings: Seq<libusb_interface_descriptor>,
    n: int,
    j: int,
)
    requires
        0 <= j < n <= settings.len(),
    ensures
        visit_endpoints(settings, n).contains(settings[j].endpoint),
    decreases n,
{
    let order = visit_endpoints(settings, n);
    if j == n - 1 {
        assert(order[0] == settings[j].endpoint);
    } else {
        lemma_visit_endpoints_holds(settings, n - 1, j);
        let rest = visit_endpoints(settings, n - 1);
        let t = choose|t: int| 0 <= t < rest.len() && rest[t] == settings[j].endpoint;
        assert(order[t + 1] == settings[j].endpoint);
    }
}

proof fn lemma_visit_interfaces_holds(h: HeapView, ifaces: Seq<libusb_interface>, n: int, i: int)
    requires
        0 <= i < n <= ifaces.len(),
    ensures
        h.visit_interfaces(ifaces, n).contains(ifaces[i].altsetting),
        forall|j: int|
            0 <= j < (h.block(ifaces[i].altsetting)->Settings_0).len() ==> h.visit_interfaces(
                ifaces,
                n,
            ).contains((#[trigger] (h.block(ifaces[i].altsetting)->Settings_0)[j]).endpoint),
    decreases n,
{
    let order = h.visit_interfaces(ifaces, n);
    let s = ifaces[n - 1].altsetting;
    let settings = h.block(s)->Settings_0;
    let mine = visit_endpoints(settings, settings.len() as int);
    let rest = h.visit_interfaces(ifaces, n - 1);
    assert(order == seq![s] + mine + rest);
    if i == n - 1 {
        assert(order[0] == s);
        assert forall|j: int| 0 <= j < settings.len() implies order.contains(
            (#[trigger] settings[j]).endpoint,
        ) by {
            lemma_visit_endpoints_holds(settings, settings.len() as int, j);
            let t = choose|t: int| 0 <= t < mine.len() && mine[t] == settings[j].endpoint;
            assert(order[1 + t] == settings[j].endpoint);
        }
    } else {
        lemma_visit_interfaces_holds(h, ifaces, n - 1, i);
        let own = h.block(ifaces[i].altsetting)->Settings_0;
        let t = choose|t: int| 0 <= t < rest.len() && rest[t] == ifaces[i].altsetting;
        assert(order[1 + mine.len() + t] == ifaces[i].altsetting);
        assert forall|j: int| 0 <= j < own.len() implies order.contains(
            (#[trigger] own[j]).endpoint,
        ) by {
            let u = choose|u: int| 0 <= u < rest.len() && rest[u] == own[j].endpoint;
            assert(order[1 + mine.len() + u] == own[j].endpoint);
        }
    }
}

proof fn lemma_visit_interfaces_frame(
    h: HeapView,
    other: HeapView,
    ifaces: Seq<libusb_interface>,
    n: int,
)
    requires
        0 <= n <= ifaces.len(),
        forall|i: int|
            0 <= i < n ==> other.slot((#[trigger] ifaces[i]).altsetting) == h.slot(
                ifaces[i].altsetting,
            ),
    ensures
        other.visit_interfaces(ifaces, n) == h.visit_interfaces(ifaces, n),
    decreases n,
{
    if n > 0 {
        lemma_visit_interfaces_frame(h, other, ifaces, n - 1);
        let last = ifaces[n - 1];
        assert(other.slot(last.altsetting) == h.slot(last.altsetting));
    }
}

/// A tree stays a tree, with the same blocks in the same order, in every heap
/// that holds at the tree's addresses what this heap holds there: what is
/// built or given back elsewhere does not touch it.
pub proof fn lemma_tree_frame(h: HeapView, other: HeapView, config: usize)
    requires
        h.is_tree(config),
        forall|p: usize|
            h.visit_order(config).contains(p) ==> other.in_range(p) && #[trigger] other.slot(p)
                == h.slot(p),
    ensures
        other.is_tree(config),
        other.visit_order(config) == h.visit_order(config),
{
    let order = h.visit_order(config);
    let ip = h.block(config)->Config_0.interface;
    let ifaces = h.block(ip)->Interfaces_0;
    let n = ifaces.len() as int;
    let inner = h.visit_interfaces(ifaces, n);
    assert(order == seq![config, ip] + inner);
    assert(order[0] == config);
    assert(order[1] == ip);
    assert(other.slot(config) == h.slot(config));
    assert(other.slot(ip) == h.slot(ip));
    assert forall|i: int| 0 <= i < n implies other.slot((#[trigger] ifaces[i]).altsetting)
        == h.slot(ifaces[i].altsetting) && other.in_range(ifaces[i].altsetting) by {
        lemma_visit_interfaces_holds(h, ifaces, n, i);
        let t = choose|t: int| 0 <= t < inner.len() && inner[t] == ifaces[i].altsetting;
        assert(order[2 + t] == ifaces[i].altsetting);
    }
    lemma_visit_interfaces_frame(h, other, ifaces, n);
    assert(other.interfaces_ok(ifaces)) by {
        assert forall|i: int| 0 <= i < ifaces.len() implies {
            let s = (#[trigger] ifaces[i]).altsetting;
            &&& other.live(s)
            &&& other.block(s) is Settings
            &&& other.settings_ok(other.block(s)->Settings_0)
        } by {
            let s = ifaces[i].altsetting;
            assert(other.slot(s) == h.slot(s) && other.in_range(s));
            assert(h.live(s) && h.block(s) is Settings && h.settings_ok(h.block(s)->Settings_0));
            let settings = h.block(s)->Settings_0;
            lemma_visit_interfaces_holds(h, ifaces, n, i);
            assert forall|j: int| 0 <= j < settings.len() implies other.live(
                (#[trigger] settings[j]).endpoint,
            ) && other.block(settings[j].endpoint) is Endpoints by {
                let e = settings[j].endpoint;
                let t = choose|t: int| 0 <= t < inner.len() && inner[t] == e;
                assert(order[2 + t] == e);
                assert(other.slot(e) == h.slot(e) && other.in_range(e));
                assert(h.live(e) && h.block(e) is Endpoints);
            }
        }
    }
}

} // verus!
