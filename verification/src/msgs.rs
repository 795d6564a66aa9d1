//! The commands that the bridge posts to the host worker and the reply that
//! belongs to each of them.

use vstd::prelude::*;
use vstd::std_specs::convert::FromSpecImpl;
use crate::constants::{
    c_int, LIBUSB_ERROR_ACCESS, LIBUSB_ERROR_BUSY, LIBUSB_ERROR_INTERRUPTED,
    LIBUSB_ERROR_INVALID_PARAM, LIBUSB_ERROR_IO, LIBUSB_ERROR_NOT_FOUND,
    LIBUSB_ERROR_NOT_SUPPORTED, LIBUSB_ERROR_OTHER, LIBUSB_SUCCESS,
};

verus! {

/// Why the host could not carry out a command. The set follows the host's
/// permission and transport model, which is coarser than the native one.
#[derive(Debug, Clone, Copy, PartialEq, Eq, Structural)]
pub enum Error {
    NotFound,
    Security,
    Network,
    Abort,
    InvalidState,
    InvalidAccess,
    Unknown,
}

/// The native status code that stands for each host error.
pub open spec fn error_code(e: Error) -> c_int {
    match e {
        Error::NotFound => LIBUSB_ERROR_NOT_FOUND,
        Error::Security => LIBUSB_ERROR_ACCESS,
        Error::Network => LIBUSB_ERROR_IO,
        Error::Abort => LIBUSB_ERROR_INTERRUPTED,
        Error::InvalidState => LIBUSB_ERROR_BUSY,
        Error::InvalidAccess => LIBUSB_ERROR_INVALID_PARAM,
        Error::Unknown => LIBUSB_ERROR_NOT_SUPPORTED,
    }
}

impl From<Error> for c_int {
    fn from(e: Error) -> (code: c_int) {
        match e {
            Error::NotFound => LIBUSB_ERROR_NOT_FOUND,
            Error::Security => LIBUSB_ERROR_ACCESS,
            Error::Network => LIBUSB_ERROR_IO,
            Error::Abort => LIBUSB_ERROR_INTERRUPTED,
            Error::InvalidState => LIBUSB_ERROR_BUSY,
            Error::InvalidAccess => LIBUSB_ERROR_INVALID_PARAM,
            Error::Unknown => LIBUSB_ERROR_NOT_SUPPORTED,
        }
    }
}

impl FromSpecImpl<Error> for c_int {
    open spec fn obeys_from_spec() -> bool {
        true
    }

    open spec fn from_spec(e: Error) -> c_int {
        error_code(e)
    }
}

/// Every host error has a code of its own; none of them reads as success and
/// none as the code kept for failures of the transport itself.
pub proof fn lemma_error_code_total_and_distinct(a: Error, b: Error)
    ensures
        error_code(a) < 0,
        error_code(a) != LIBUSB_SUCCESS,
        error_code(a) != LIBUSB_ERROR_OTHER,
        error_code(a) == error_code(b) ==> a == b,
{
}

/// Write `data` to an OUT endpoint.
#[derive(Debug, Clone, Copy, PartialEq, Eq)]
pub struct BulkTransferOut<'a> {
    pub device: u32,
    pub endpoint: u8,
    pub data: &'a [u8],
}

/// Read up to `length` bytes from an IN endpoint.
#[derive(Debug, Clone, Copy, PartialEq, Eq)]
pub struct BulkTransferIn {
    pub device: u32,
    pub endpoint: u8,
    pub length: usize,
}

#[derive(Debug, Clone, Copy, PartialEq, Eq)]
pub struct SelectConfiguration {
    pub device: u32,
    pub config: u8,
}

#[derive(Debug, Clone, Copy, PartialEq, Eq)]
pub struct ClaimInterface {
    pub device: u32,
    pub number: u8,
}

#[derive(Debug, Clone, Copy, PartialEq, Eq)]
pub struct ReleaseInterface {
    pub device: u32,
    pub number: u8,
}

#[derive(Debug, Clone, Copy, PartialEq, Eq)]
pub struct ResetDevice {
    pub device: u32,
}

#[derive(Debug, Clone, Copy, PartialEq, Eq)]
pub struct ActiveConfigDescriptor {
    pub device: u32,
}

/// One command to the host worker.
#[derive(Debug, Clone, Copy, PartialEq, Eq)]
pub enum Cmd<'a> {
    BulkTransferOut(BulkTransferOut<'a>),
    BulkTransferIn(BulkTransferIn),
    SelectConfiguration(SelectConfiguration),
    ClaimInterface(ClaimInterface),
    ReleaseInterface(ReleaseInterface),
    ResetDevice(ResetDevice),
    ActiveConfigDescriptor(ActiveConfigDescriptor),
}

impl<'a> From<BulkTransferOut<'a>> for Cmd<'a> {
    fn from(c: BulkTransferOut<'a>) -> (cmd: Self) {
        Cmd::BulkTransferOut(c)
    }
}

impl<'a> FromSpecImpl<BulkTransferOut<'a>> for Cmd<'a> {
    open spec fn obeys_from_spec() -> bool {
        true
    }

    open spec fn from_spec(c: BulkTransferOut<'a>) -> Self {
        Cmd::BulkTransferOut(c)
    }
}

impl<'a> From<BulkTransferIn> for Cmd<'a> {
    fn from(c: BulkTransferIn) -> (cmd: Self) {
        Cmd::BulkTransferIn(c)
    }
}

impl<'a> FromSpecImpl<BulkTransferIn> for Cmd<'a> {
    open spec fn obeys_from_spec() -> bool {
        true
    }

    open spec fn from_spec(c: BulkTransferIn) -> Self {
        Cmd::BulkTransferIn(c)
    }
}

impl<'a> From<SelectConfiguration> for Cmd<'a> {
    fn from(c: SelectConfiguration) -> (cmd: Self) {
        Cmd::SelectConfiguration(c)
    }
}

impl<'a> FromSpecImpl<SelectConfiguration> for Cmd<'a> {
    open spec fn obeys_from_spec() -> bool {
        true
    }

    open spec fn from_spec(c: SelectConfiguration) -> Self {
        Cmd::SelectConfiguration(c)
    }
}

impl<'a> From<ClaimInterface> for Cmd<'a> {
    fn from(c: ClaimInterface) -> (cmd: Self) {
        Cmd::ClaimInterface(c)
    }
}

impl<'a> FromSpecImpl<ClaimInterface> for Cmd<'a> {
    open spec fn obeys_from_spec() -> bool {
        true
    }

    open spec fn from_spec(c: ClaimInterface) -> Self {
        Cmd::ClaimInterface(c)
    }
}

impl<'a> From<ReleaseInterface> for Cmd<'a> {
    fn from(c: ReleaseInterface) -> (cmd: Self) {
        Cmd::ReleaseInterface(c)
    }
}

impl<'a> FromSpecImpl<ReleaseInterface> for Cmd<'a> {
    open spec fn obeys_from_spec() -> bool {
        true
    }

    open spec fn from_spec(c: ReleaseInterface) -> Self {
        Cmd::ReleaseInterface(c)
    }
}

impl<'a> From<ResetDevice> for Cmd<'a> {
    fn from(c: ResetDevice) -> (cmd: Self) {
        Cmd::ResetDevice(c)
    }
}

impl<'a> FromSpecImpl<ResetDevice> for Cmd<'a> {
    open spec fn obeys_from_spec() -> bool {
        true
    }

    open spec fn from_spec(c: ResetDevice) -> Self {
        Cmd::ResetDevice(c)
    }
}

impl<'a> From<ActiveConfigDescriptor> for Cmd<'a> {
    fn from(c: ActiveConfigDescriptor) -> (cmd: Self) {
        Cmd::ActiveConfigDescriptor(c)
    }
}

impl<'a> FromSpecImpl<ActiveConfigDescriptor> for Cmd<'a> {
    open spec fn obeys_from_spec() -> bool {
        true
    }

    open spec fn from_spec(c: ActiveConfigDescriptor) -> Self {
        Cmd::ActiveConfigDescriptor(c)
    }
}

/// The reply to a command that hands nothing back.
#[derive(Debug, Clone, Copy, PartialEq, Eq)]
pub struct NullReply(pub Result<(), Error>);

/// The reply to a write: the number of bytes that the device took.
#[derive(Debug, Clone, Copy, PartialEq, Eq)]
pub struct BulkTransferOutReply(pub Result<usize, Error>);

/// Bytes that still lie in the reply buffer.
#[derive(Debug, Clone, Copy, PartialEq, Eq)]
pub struct Data<'a>(pub &'a [u8]);

/// The reply to a read: what the device sent.
#[derive(Debug, Clone, Copy, PartialEq, Eq)]
pub struct BulkTransferInReply<'a>(pub Result<Data<'a>, Error>);

#[derive(Debug, Clone, Copy, PartialEq, Eq)]
pub struct USBEndpoint {
    pub address: u8,
    pub packet_size: u16,
}

#[derive(Debug, PartialEq, Eq)]
pub struct USBAlternateInterface {
    pub alternate_setting: u8,
    pub interface_class: u8,
    pub interface_subclass: u8,
    pub interface_protocol: u8,
    pub endpoints: Vec<USBEndpoint>,
}

/// The active configuration as the host describes it: one list of alternate
/// settings for each interface.
#[derive(Debug, PartialEq, Eq)]
pub struct USBConfiguration {
    pub configuration_value: u8,
    pub interfaces: Vec<Vec<USBAlternateInterface>>,
}

/// An alternate setting with its endpoints as a sequence.
pub struct AlternateInterfaceView {
    pub alternate_setting: u8,
    pub interface_class: u8,
    pub interface_subclass: u8,
    pub interface_protocol: u8,
    pub endpoints: Seq<USBEndpoint>,
}

impl View for USBAlternateInterface {
    type V = AlternateInterfaceView;

    open spec fn view(&self) -> AlternateInterfaceView {
        AlternateInterfaceView {
            alternate_setting: self.alternate_setting,
            interface_class: self.interface_class,
            interface_subclass: self.interface_subclass,
            interface_protocol: self.interface_protocol,
            endpoints: self.endpoints@,
        }
    }
}

/// A configuration with its interfaces and their settings as sequences.
pub struct ConfigurationView {
    pub configuration_value: u8,
    pub interfaces: Seq<Seq<AlternateInterfaceView>>,
}

impl View for USBConfiguration {
    type V = ConfigurationView;

    open spec fn view(&self) -> ConfigurationView {
        ConfigurationView {
            configuration_value: self.configuration_value,
            interfaces: Seq::new(
                self.interfaces@.len(),
                |i: int|
                    Seq::new(self.interfaces@[i]@.len(), |j: int| self.interfaces@[i]@[j]@),
            ),
        }
    }
}

#[derive(Debug, PartialEq, Eq)]
pub struct ActiveConfigDescriptorReply(pub Result<USBConfiguration, Error>);

/// A command together with the one shape of reply that answers it.
pub trait Message<'reply, 'cmd>: Into<Cmd<'cmd>> {
    type Reply;
}

impl<'reply, 'cmd> Message<'reply, 'cmd> for BulkTransferOut<'cmd> {
    type Reply = BulkTransferOutReply;
}

impl<'reply, 'cmd> Message<'reply, 'cmd> for BulkTransferIn {
    type Reply = BulkTransferInReply<'reply>;
}

impl<'reply, 'cmd> Message<'reply, 'cmd> for SelectConfiguration {
    type Reply = NullReply;
}

impl<'reply, 'cmd> Message<'reply, 'cmd> for ClaimInterface {
    type Reply = NullReply;
}

impl<'reply, 'cmd> Message<'reply, 'cmd> for ReleaseInterface {
    type Reply = NullReply;
}

impl<'reply, 'cmd> Message<'reply, 'cmd> for ResetDevice {
    type Reply = NullReply;
}

impl<'reply, 'cmd> Message<'reply, 'cmd> for ActiveConfigDescriptor {
    type Reply = ActiveConfigDescriptorReply;
}

} // verus!
